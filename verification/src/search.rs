//! One search worker: the recursive alpha-beta search of a position with
//! its transposition table and root moves.

use vstd::prelude::*;
use crate::consts::{NonPV, PVNode, MATERIAL_TABLE_SIZE, MAX_PLY, PAWN_TABLE_SIZE, PV};
use crate::piece_move::BitMove;
use crate::position::{same_position, Game, Position};
use crate::root_moves::{moves_of, RootMove, RootMoveList};
use crate::score::{finite, Value, INFINITE, NEG_INFINITE};
use crate::search_model::{
    candidate_moves, correct_bound, enter_spec, is_futile, loop_spec, move_key, move_keys,
    move_order_key, move_spec, node_bound_for, ordered_roots, reduced_depth, remaining,
    root_update, search_spec, static_eval, takes_tt_cutoff, value_without_move, wants_pv_search,
    Entered, LoopState, SearchState,
};
use crate::stable_sort::{permute, reordered, sort_order, stable_order};
use crate::tables::{Material, PawnTable};
use crate::time::{out_of_time, time_is_up, Limits, SearchControl, TimeManager};
use crate::tt::{NodeBound, TranspositionTable};

verus! {

/// What a worker keeps for one ply of its search.
#[derive(Clone, Copy, PartialEq, Eq, Debug)]
pub struct ThreadStack {
    pv: BitMove,
    ply: u16,
}

impl ThreadStack {
    /// The frame of a ply, with no move on the principal variation.
    pub fn new(ply: u16) -> (frame: ThreadStack)
        ensures
            frame.ply() == ply,
            frame.pv() == BitMove::spec_null(),
    {
        ThreadStack { pv: BitMove::null(), ply }
    }

    /// The move of the principal variation at the frame's ply.
    pub closed spec fn pv(self) -> BitMove {
        self.pv
    }

    /// The ply of the frame.
    pub closed spec fn ply(self) -> u16 {
        self.ply
    }
}

/// Whether every root move can be played at the root and carries a score
/// that is finite or minus infinity.
pub open spec fn roots_ok(g: Game, roots: Seq<RootMove>) -> bool {
    forall|i: int|
        0 <= i < roots.len() ==> g.playable(Seq::<BitMove>::empty(), (#[trigger] roots[i]).bit_move)
            && NEG_INFINITE <= roots[i].score < INFINITE
}

/// Sorts moves of the board's position by their ordering key, lowest
/// first; moves with equal keys keep their order.
pub fn mvv_lva_sort<P: Position>(moves: &mut Vec<BitMove>, board: &P)
    requires
        board.wf(),
        forall|i: int|
            0 <= i < old(moves)@.len() ==> (board.game().pseudo)(board.line()).contains(
                #[trigger] old(moves)@[i],
            ),
    ensures
        final(moves)@ == reordered(
            old(moves)@,
            stable_order(move_keys(board.game(), board.line(), old(moves)@)),
        ),
        final(moves)@.len() == old(moves)@.len(),
        forall|i: int|
            0 <= i < final(moves)@.len() ==> old(moves)@.contains(#[trigger] final(moves)@[i]),
{
    let mut keys: Vec<i64> = Vec::new();
    let mut i: usize = 0;
    while i < moves.len()
        invariant
            i <= moves@.len(),
            moves@ == old(moves)@,
            board.wf(),
            forall|k: int|
                0 <= k < moves@.len() ==> (board.game().pseudo)(board.line()).contains(
                    #[trigger] moves@[k],
                ),
            keys@.len() == i,
            forall|k: int|
                0 <= k < i ==> keys@[k] == move_key(board.game(), board.line(), moves@[k]),
        decreases moves@.len() - i,
    {
        let m = moves[i];
        let mover = board.piece_at_sq(m.get_src());
        let victim = board.captured_piece(m);
        keys.push(move_order_key(mover, victim, m));
        i += 1;
    }
    assert(keys@ =~= move_keys(board.game(), board.line(), moves@));
    let order = sort_order(&keys);
    let sorted = permute(moves, &order);
    proof {
        assert forall|i: int| 0 <= i < sorted@.len() implies moves@.contains(
            #[trigger] sorted@[i],
        ) by {
            assert(sorted@[i] == moves@[order@[i] as int]);
        }
    }
    *moves = sorted;
}

/// A search worker.
pub struct Searcher<P: Position, C: SearchControl> {
    /// The number of the worker; worker 0 is the main one.
    pub id: usize,
    /// The depth of the last iteration that ran to its end.
    pub depth_completed: u16,
    /// The limits of the search.
    pub limit: Limits,
    /// The worker's own board.
    pub board: P,
    /// The surroundings of the search.
    pub control: C,
    /// The time budget of the move.
    pub time_man: TimeManager,
    /// The transposition table.
    pub tt: TranspositionTable,
    /// The cache of pawn structure scores.
    pub pawns: PawnTable,
    /// The cache of material scores.
    pub material: Material,
    /// The root moves.
    pub root_moves: RootMoveList,
    /// The score of the move that the last search settled on.
    pub previous_score: Value,
    /// Whether the worker reports its progress.
    pub use_stdout: bool,
    /// Set once the search has seen a stop request or has run out of time;
    /// from then on the worker behaves as stopped.
    pub cut_short: bool,
}

impl<P: Position, C: SearchControl> Searcher<P, C> {
    /// Board, table and caches are sound.
    pub open spec fn wf(&self) -> bool {
        self.board.wf() && self.tt.wf() && self.pawns.cache.wf() && self.material.cache.wf()
    }

    /// Everything but the table's content, the root moves and the stopped
    /// flag is as it was `before`.
    pub open spec fn same_setup(&self, before: &Self) -> bool {
        &&& self.same_limits(before)
        &&& self.depth_completed == before.depth_completed
    }

    /// Number, limits, budget, board and the table's size and generation
    /// are as they were `before`.
    pub open spec fn same_limits(&self, before: &Self) -> bool {
        &&& self.id == before.id
        &&& self.control == before.control
        &&& self.limit == before.limit
        &&& self.time_man == before.time_man
        &&& self.previous_score == before.previous_score
        &&& self.use_stdout == before.use_stdout
        &&& self.board.game() == before.board.game()
        &&& self.board.line() == before.board.line()
        &&& self.tt@.entries.len() == before.tt@.entries.len()
        &&& self.tt@.generation == before.tt@.generation
    }

    /// Whether the search is run by the clocks of the game or by a fixed
    /// move time.
    pub open spec fn on_the_clock(&self) -> bool {
        self.limit.timer().is_some() || self.limit.movetime().is_some()
    }

    /// Whether a search of this worker can come to be cut short: a stop
    /// was seen already, the surroundings can ask for one, or this is the
    /// main worker of a search on the clock.
    pub open spec fn may_be_cut(&self) -> bool {
        self.cut_short || self.control.may_stop() || (self.id == 0 && self.on_the_clock())
    }

    /// What the search reads and writes besides the board.
    pub open spec fn state(&self) -> SearchState {
        SearchState { tt: self.tt@, roots: self.root_moves@ }
    }

    /// A worker for the given board, with a table of `tt_mb` megabytes and
    /// no root moves yet.
    pub fn new(id: usize, board: P, control: C, tt_mb: usize) -> (worker: Searcher<P, C>)
        requires
            board.wf(),
            0 < tt_mb <= crate::tt::MAX_TT_SIZE,
        ensures
            worker.wf(),
            worker.id == id,
            worker.board == board,
            worker.depth_completed == 0,
            worker.previous_score == 0,
            worker.root_moves@ == Seq::<RootMove>::empty(),
            worker.limit.limits_type == crate::time::LimitsType::Infinite,
            !worker.cut_short,
            worker.use_stdout,
            worker.time_man.ideal() == 0 && worker.time_man.maximum() == 0,
            worker.tt@.generation == 0,
            worker.tt@.clusters() * crate::tt::CLUSTER_BYTES <= tt_mb * 1048576,
            worker.tt@.clusters() * crate::tt::CLUSTER_BYTES * 2 > tt_mb * 1048576,
            forall|i: int|
                0 <= i < worker.tt@.entries.len() ==> worker.tt@.entries[i]
                    == crate::tt::Entry::vacant(),
            worker.pawns.cache@.len() == PAWN_TABLE_SIZE,
            worker.material.cache@.len() == MATERIAL_TABLE_SIZE,
    {
        Searcher {
            id,
            depth_completed: 0,
            limit: Limits::blank(),
            board,
            control,
            time_man: TimeManager::uninitialized(),
            tt: TranspositionTable::new(tt_mb),
            pawns: PawnTable::new(PAWN_TABLE_SIZE),
            material: Material::new(MATERIAL_TABLE_SIZE),
            root_moves: RootMoveList::new(),
            previous_score: 0,
            use_stdout: true,
            cut_short: false,
        }
    }

    /// Returns the static evaluation of the worker's board, made with the
    /// worker's caches.
    pub fn eval(&mut self) -> (v: Value)
        requires
            old(self).wf(),
        ensures
            final(self).wf(),
            *final(self) == (Searcher {
                pawns: final(self).pawns,
                material: final(self).material,
                ..*old(self)
            }),
            v == (old(self).board.game().eval)(old(self).board.line()),
            finite(v as int),
    {
        proof {
            self.board.lemma_wf();
        }
        self.board.evaluate(&mut self.pawns, &mut self.material)
    }

    /// Returns whether this is the main worker.
    pub fn main_thread(&self) -> (b: bool)
        ensures
            b == (self.id == 0),
    {
        self.id == 0
    }

    /// Returns whether the worker reports its progress.
    pub fn use_stdout(&self) -> (b: bool)
        ensures
            b == self.use_stdout,
    {
        self.use_stdout
    }

    /// Returns the root moves.
    pub fn root_moves(&mut self) -> (list: &mut RootMoveList)
        ensures
            *list == old(self).root_moves,
            *final(self) == (Searcher { root_moves: *final(list), ..*old(self) }),
    {
        &mut self.root_moves
    }

    /// Reports that the worker starts, if it reports at all.
    pub fn print_startup(&self) {
        if self.use_stdout() {
            self.control.report_start(self.id);
        }
    }

    /// Returns whether the search is to stop. A stop request, once seen,
    /// stays seen, and the surroundings are asked only until then. Where
    /// the surroundings never ask for a stop, none is seen.
    pub fn stop(&mut self) -> (s: bool)
        ensures
            s == final(self).cut_short,
            old(self).cut_short ==> s,
            s ==> old(self).cut_short || old(self).control.may_stop(),
            *final(self) == (Searcher { cut_short: s, ..*old(self) }),
    {
        if self.cut_short {
            true
        } else {
            let asked = self.control.stop();
            self.note_stop(asked)
        }
    }

    /// Takes note of the surroundings' answer to the question whether the
    /// search is to stop, and returns whether it is: it is where a stop was
    /// seen before or is asked for now.
    pub fn note_stop(&mut self, asked: bool) -> (s: bool)
        ensures
            s == (old(self).cut_short || asked),
            s == final(self).cut_short,
            *final(self) == (Searcher { cut_short: s, ..*old(self) }),
    {
        if asked {
            self.cut_short = true;
        }
        self.cut_short
    }

    /// Reads the clock of a search that is run by the clocks of the game or
    /// by a fixed move time, and takes note of the reading: where the time
    /// is up, every worker is asked to stop and the search is cut short.
    pub fn check_time(&mut self)
        ensures
            old(self).cut_short ==> final(self).cut_short,
            final(self).cut_short && !old(self).cut_short ==> old(self).limit.timer().is_some()
                || old(self).limit.movetime().is_some(),
            exists|elapsed: int|
                final(self).cut_short == (old(self).cut_short || #[trigger] time_is_up(
                    old(self).limit,
                    old(self).time_man.maximum(),
                    elapsed,
                )),
            *final(self) == (Searcher { cut_short: final(self).cut_short, ..*old(self) }),
    {
        let ghost mut read: i64 = 0;
        if self.limit.use_time_management().is_some() || self.limit.use_movetime().is_some() {
            let elapsed = self.control.elapsed();
            self.note_time(elapsed);
            proof {
                read = elapsed;
            }
        }
        assert(self.cut_short == (old(self).cut_short || time_is_up(
            old(self).limit,
            old(self).time_man.maximum(),
            read as int,
        )));
    }

    /// Takes note of a reading of the clock, in milliseconds since the
    /// search began: where the time is up for the limits of the search,
    /// every worker is asked to stop and the search is cut short.
    pub fn note_time(&mut self, elapsed: i64)
        ensures
            final(self).cut_short == (old(self).cut_short || time_is_up(
                old(self).limit,
                old(self).time_man.maximum(),
                elapsed as int,
            )),
            *final(self) == (Searcher { cut_short: final(self).cut_short, ..*old(self) }),
    {
        if out_of_time(&self.limit, self.time_man.maximum_time(), elapsed) {
            self.control.set_stop(true);
            self.cut_short = true;
        }
    }

    /// Sorts the root moves by their ordering key on the board, lowest
    /// first.
    pub fn rm_mvv_laa_sort(&mut self)
        requires
            old(self).wf(),
            old(self).board.line().len() == 0,
            roots_ok(old(self).board.game(), old(self).root_moves@),
        ensures
            final(self).root_moves@ == ordered_roots(old(self).board.game(), old(self).root_moves@),
            crate::root_moves::rearranged(old(self).root_moves@, final(self).root_moves@),
            *final(self) == (Searcher { root_moves: final(self).root_moves, ..*old(self) }),
    {
        let ghost g = self.board.game();
        let ghost line = self.board.line();
        assert(line =~= Seq::<BitMove>::empty());
        let mut keys: Vec<i64> = Vec::new();
        let mut i: usize = 0;
        while i < self.root_moves.len()
            invariant
                i <= self.root_moves@.len(),
                *self == *old(self),
                self.wf(),
                g == self.board.game(),
                line == self.board.line(),
                line == Seq::<BitMove>::empty(),
                roots_ok(g, self.root_moves@),
                keys@.len() == i,
                forall|k: int| 0 <= k < i ==> keys@[k] == move_key(g, line, self.root_moves@[k].bit_move),
            decreases self.root_moves@.len() - i,
        {
            let m = self.root_moves.get(i).bit_move;
            let mover = self.board.piece_at_sq(m.get_src());
            let victim = self.board.captured_piece(m);
            keys.push(move_order_key(mover, victim, m));
            i += 1;
        }
        assert(keys@ =~= move_keys(g, line, moves_of(self.root_moves@)));
        self.root_moves.sort_by_keys(&keys);
    }
}

impl<P: Position, C: SearchControl> Searcher<P, C> {
    /// Searches one move of the position on the board, as move number
    /// `played` of its node: plays it, searches the position behind it with
    /// a zero window, reduced for a late move, and with the full window
    /// where the node asks for it, and takes the move back. Returns the
    /// move's value for the side that plays it.
    pub fn search_move(
        &mut self,
        m: BitMove,
        alpha: i32,
        beta: i32,
        max_depth: u16,
        is_pv: bool,
        played: usize,
        in_check: bool,
    ) -> (value: i32)
        requires
            old(self).wf(),
            old(self).board.game().playable(old(self).board.line(), m),
            old(self).board.line().len() < max_depth <= MAX_PLY,
            NEG_INFINITE <= alpha < beta <= INFINITE,
            in_check == (old(self).board.game().check)(old(self).board.line()),
        ensures
            final(self).wf(),
            final(self).same_setup(old(self)),
            old(self).cut_short ==> final(self).cut_short,
            final(self).cut_short ==> old(self).may_be_cut(),
            finite(value as int),
            final(self).root_moves@ == old(self).root_moves@,
            !final(self).cut_short ==> ({
                let o = move_spec(
                    old(self).board.game(),
                    old(self).board.line(),
                    m,
                    old(self).state(),
                    alpha as int,
                    beta as int,
                    max_depth as int,
                    is_pv,
                    played as int,
                );
                value == o.value && final(self).tt@ == o.tt
            }),
        decreases remaining(max_depth as int, old(self).board.line().len()), 0int,
    {
        proof {
            self.board.lemma_wf();
        }
        let ghost line = self.board.line();
        let ply = self.board.depth();
        let gives_check = self.board.gives_check(m);
        self.board.apply_unknown_move(m, gives_check);
        self.tt.prefetch(self.board.zobrist());
        let mut value: i32;
        match reduced_depth(max_depth, played, ply, in_check, gives_check) {
            Some(depth) => {
                value = -self.search::<NonPV>(-(alpha + 1), -alpha, depth);
                if value > alpha {
                    value = -self.search::<NonPV>(-(alpha + 1), -alpha, max_depth);
                }
            },
            None => {
                value = -self.search::<NonPV>(-(alpha + 1), -alpha, max_depth);
            },
        }
        if wants_pv_search(is_pv, played, value, alpha, beta) {
            value = -self.search::<PV>(-beta, -alpha, max_depth);
        }
        self.board.undo_move();
        proof {
            assert(line.push(m).drop_last() =~= line);
        }
        value
    }

    /// Searches the position on the board with the window from `alpha` to
    /// `beta`, down to `max_depth` plies from the root, and returns its
    /// value for the side to move. The board is left as it was found. At
    /// the root the moves searched are the root moves, and their records
    /// take the values found. Unless the search was cut short, the value,
    /// the table and the root moves are those of `search_spec`; a search
    /// that was cut short returns zero, or the static evaluation where the
    /// stop was seen on entering the node.
    pub fn search<N: PVNode>(&mut self, alpha: i32, beta: i32, max_depth: u16) -> (value: i32)
        requires
            old(self).wf(),
            NEG_INFINITE <= alpha < beta <= INFINITE,
            max_depth <= MAX_PLY,
            old(self).board.line().len() == 0 ==> roots_ok(
                old(self).board.game(),
                old(self).root_moves@,
            ),
        ensures
            final(self).wf(),
            final(self).same_setup(old(self)),
            same_position(final(self).board, old(self).board),
            old(self).cut_short ==> final(self).cut_short,
            final(self).cut_short ==> old(self).cut_short || (old(self).id == 0 && old(
                self,
            ).on_the_clock()) || (old(self).board.line().len() < max_depth && old(
                self,
            ).control.may_stop()),
            old(self).board.line().len() >= max_depth || old(self).cut_short ==> value == (old(
                self,
            ).board.game().eval)(old(self).board.line()) && final(self).root_moves@ == old(
                self,
            ).root_moves@ && final(self).tt@ == old(self).tt@.probe(
                (old(self).board.game().key)(old(self).board.line()),
            ).table,
            finite(value as int),
            moves_of(final(self).root_moves@) == moves_of(old(self).root_moves@),
            old(self).board.line().len() == 0 ==> roots_ok(
                old(self).board.game(),
                final(self).root_moves@,
            ),
            old(self).board.line().len() > 0 ==> final(self).root_moves@ == old(self).root_moves@,
            final(self).cut_short ==> value == 0 || value == (old(self).board.game().eval)(
                old(self).board.line(),
            ),
            old(self).board.line().len() == 0 && max_depth > 0 && N::pv() && old(self).root_moves@.len()
                > 0 && !final(self).cut_short ==> topped(
                final(self).root_moves@,
                value as int,
                alpha as int,
                beta as int,
            ),
            !final(self).cut_short ==> ({
                let o = search_spec(
                    old(self).board.game(),
                    old(self).board.line(),
                    old(self).state(),
                    alpha as int,
                    beta as int,
                    max_depth as int,
                    N::pv(),
                );
                value == o.value && final(self).tt@ == o.tt && final(self).root_moves@ == o.roots
            }),
        decreases remaining(max_depth as int, old(self).board.line().len()), 2int,
    {
        let is_pv: bool = N::is_pv();
        proof {
            self.board.lemma_wf();
        }
        let ghost g = self.board.game();
        let ghost line = self.board.line();
        let ghost st0 = self.state();
        let at_root: bool = self.board.depth() == 0;
        let in_check: bool = self.board.in_check();
        let ply: u16 = self.board.depth();
        let zob: u64 = self.board.zobrist();
        match self.enter(alpha, beta, max_depth, is_pv) {
            NodeEntry::Done { value } => value,
            NodeEntry::Open { slot, pos_eval } => {
                let mut moves: Vec<BitMove>;
                if at_root {
                    moves = self.root_moves.to_moves();
                } else {
                    moves = self.board.generate_pseudolegal_moves();
                    proof {
                        let pseudo = (g.pseudo)(line);
                        assert forall|i: int| 0 <= i < moves@.len() implies pseudo.contains(
                            #[trigger] moves@[i],
                        ) by {}
                    }
                    mvv_lva_sort(&mut moves, &self.board);
                }
                assert(moves@ == candidate_moves(g, line, st0.roots));
                assert(at_root ==> moves@.len() == st0.roots.len());
                if moves.len() == 0 {
                    return value_without_move(in_check, ply);
                }
                let found = self.search_moves(&moves, alpha, beta, max_depth, is_pv, in_check);
                if self.cut_short {
                    return 0;
                }
                if found.played == 0 {
                    return value_without_move(in_check, ply);
                }
                let bound = node_bound_for(
                    found.best_value,
                    beta,
                    is_pv,
                    !found.best_move.is_null(),
                );
                self.tt.place(
                    slot,
                    zob,
                    found.best_move,
                    found.best_value as i16,
                    pos_eval as i16,
                    (max_depth - ply) as u8,
                    bound,
                );
                found.best_value
            },
        }
    }

    /// Enters the node on the board: probes the table, lets the main worker
    /// look at the clock, and settles the node at once where the depth
    /// limit is reached, a stop was asked for, the table allows a cutoff or
    /// the node is futile. Otherwise returns the node's place in the table
    /// and its static evaluation for the move loop.
    pub fn enter(&mut self, alpha: i32, beta: i32, max_depth: u16, is_pv: bool) -> (r: NodeEntry)
        requires
            old(self).wf(),
            NEG_INFINITE <= alpha < beta <= INFINITE,
            max_depth <= MAX_PLY,
        ensures
            final(self).wf(),
            final(self).same_setup(old(self)),
            old(self).cut_short ==> final(self).cut_short,
            final(self).cut_short ==> old(self).cut_short || (old(self).id == 0 && old(
                self,
            ).on_the_clock()) || (old(self).board.line().len() < max_depth && old(
                self,
            ).control.may_stop()),
            old(self).board.line().len() >= max_depth || old(self).cut_short ==> r
                == (NodeEntry::Done {
                value: (old(self).board.game().eval)(old(self).board.line()) as i32,
            }) && final(self).tt@ == old(self).tt@.probe(
                (old(self).board.game().key)(old(self).board.line()),
            ).table,
            final(self).root_moves@ == old(self).root_moves@,
            match r {
                NodeEntry::Done { value } => finite(value as int),
                NodeEntry::Open { slot, pos_eval } => slot < final(self).tt@.entries.len()
                    && finite(pos_eval as int) && old(self).board.line().len() < max_depth,
            },
            final(self).cut_short ==> r == (NodeEntry::Done {
                value: (old(self).board.game().eval)(old(self).board.line()) as i32,
            }),
            !final(self).cut_short ==> r.view(final(self).tt@) == enter_spec(
                old(self).board.game(),
                old(self).board.line(),
                old(self).tt@,
                alpha as int,
                beta as int,
                max_depth as int,
                is_pv,
            ),
    {
        proof {
            self.board.lemma_wf();
        }
        let ghost g = self.board.game();
        let ghost line = self.board.line();
        let ghost tt0 = self.tt@;
        let at_root: bool = self.board.depth() == 0;
        let zob: u64 = self.board.zobrist();
        let (tt_hit, slot) = self.tt.probe(zob);
        let entry = self.tt.entry(slot);
        let tt_value: Value = if tt_hit {
            entry.score as i32
        } else {
            0
        };
        let in_check: bool = self.board.in_check();
        let ply: u16 = self.board.depth();
        proof {
            crate::tt::lemma_probe(tt0, zob);
        }

        if self.main_thread() {
            self.check_time();
        }
        if ply >= max_depth || self.stop() {
            let value = self.eval();
            return NodeEntry::Done { value };
        }
        let plys_to_zero: u16 = max_depth - ply;

        if takes_tt_cutoff(at_root, is_pv, tt_hit, &entry, plys_to_zero, beta) {
            return NodeEntry::Done { value: tt_value };
        }
        let pos_eval: i32;
        if in_check {
            pos_eval = 0;
        } else if tt_hit {
            let base: i32 = if entry.eval == 0 {
                self.eval()
            } else {
                entry.eval as i32
            };
            if correct_bound(tt_value, base, entry.node_type()) {
                pos_eval = tt_value;
            } else {
                pos_eval = base;
            }
        } else {
            pos_eval = self.eval();
            self.tt.place(slot, zob, BitMove::null(), 0, pos_eval as i16, 0, NodeBound::NoBound);
        }
        assert(pos_eval == static_eval(in_check, tt_hit, entry, (g.eval)(line)));
        if is_futile(in_check, ply, pos_eval, beta) {
            return NodeEntry::Done { value: pos_eval };
        }
        NodeEntry::Open { slot, pos_eval }
    }

    /// Runs the move loop of a node over its candidate moves: skips the
    /// illegal ones off the root, searches each of the others, records the
    /// values of root moves, keeps the best value and move, raises alpha on
    /// the principal variation, and ends at a move that reaches `beta`.
    pub fn search_moves(
        &mut self,
        moves: &Vec<BitMove>,
        alpha: i32,
        beta: i32,
        max_depth: u16,
        is_pv: bool,
        in_check: bool,
    ) -> (found: LoopResult)
        requires
            old(self).wf(),
            NEG_INFINITE <= alpha < beta <= INFINITE,
            old(self).board.line().len() < max_depth <= MAX_PLY,
            in_check == (old(self).board.game().check)(old(self).board.line()),
            old(self).board.line().len() == 0 ==> roots_ok(
                old(self).board.game(),
                old(self).root_moves@,
            ) && moves@ == moves_of(old(self).root_moves@),
            old(self).board.line().len() > 0 ==> forall|k: int|
                0 <= k < moves@.len() ==> (old(self).board.game().pseudo)(
                    old(self).board.line(),
                ).contains(#[trigger] moves@[k]),
        ensures
            final(self).wf(),
            final(self).same_setup(old(self)),
            old(self).cut_short ==> final(self).cut_short,
            final(self).cut_short ==> old(self).may_be_cut(),
            found.played == 0 ==> found.best_value == NEG_INFINITE,
            found.played > 0 ==> finite(found.best_value as int),
            moves_of(final(self).root_moves@) == moves_of(old(self).root_moves@),
            old(self).board.line().len() == 0 ==> roots_ok(
                old(self).board.game(),
                final(self).root_moves@,
            ),
            old(self).board.line().len() > 0 ==> final(self).root_moves@ == old(self).root_moves@,
            old(self).board.line().len() == 0 && is_pv && !final(self).cut_short ==> topped(
                final(self).root_moves@,
                found.best_value as int,
                alpha as int,
                beta as int,
            ),
            old(self).board.line().len() == 0 && moves@.len() > 0 && !final(self).cut_short
                ==> found.played > 0,
            !final(self).cut_short ==> found.state(final(self).state()) == loop_spec(
                old(self).board.game(),
                old(self).board.line(),
                LoopState {
                    tt: old(self).tt@,
                    roots: old(self).root_moves@,
                    alpha: alpha as int,
                    best_value: NEG_INFINITE as int,
                    best_move: BitMove::spec_null(),
                    played: 0,
                },
                moves@,
                0,
                beta as int,
                max_depth as int,
                is_pv,
            ),
        decreases remaining(max_depth as int, old(self).board.line().len()), 1int,
    {
        proof {
            self.board.lemma_wf();
        }
        let ghost g = self.board.game();
        let ghost line = self.board.line();
        let ghost st0 = self.state();
        let at_root: bool = self.board.depth() == 0;
        let ghost start = LoopState {
            tt: st0.tt,
            roots: st0.roots,
            alpha: alpha as int,
            best_value: NEG_INFINITE as int,
            best_move: BitMove::spec_null(),
            played: 0,
        };
        let ghost end = loop_spec(
            g,
            line,
            start,
            moves@,
            0,
            beta as int,
            max_depth as int,
            is_pv,
        );
        let mut found = LoopResult {
            alpha,
            best_value: NEG_INFINITE,
            best_move: BitMove::null(),
            played: 0,
        };
        let mut done: bool = false;
        let mut i: usize = 0;
        while i < moves.len() && !done
            invariant
                i <= moves@.len(),
                self.wf(),
                self.same_setup(old(self)),
                old(self).cut_short ==> self.cut_short,
                self.cut_short ==> old(self).may_be_cut(),
                g == old(self).board.game(),
                line == old(self).board.line(),
                at_root == (line.len() == 0),
                line.len() < max_depth <= MAX_PLY,
                in_check == (g.check)(line),
                NEG_INFINITE <= found.alpha < beta <= INFINITE,
                found.played <= i,
                found.played == 0 ==> found.best_value == NEG_INFINITE,
                found.played > 0 ==> finite(found.best_value as int),
                st0 == old(self).state(),
                moves_of(self.root_moves@) == moves_of(st0.roots),
                at_root ==> moves@ == moves_of(st0.roots),
                at_root ==> roots_ok(g, self.root_moves@),
                !at_root ==> self.root_moves@ == st0.roots,
                !at_root ==> forall|k: int|
                    0 <= k < moves@.len() ==> (g.pseudo)(line).contains(#[trigger] moves@[k]),
                !done ==> found.alpha == alpha || found.alpha == found.best_value,
                done ==> i > 0,
                at_root ==> found.played == i,
                at_root ==> forall|k: int|
                    0 <= k < i ==> (#[trigger] self.root_moves@[k]).score <= found.best_value,
                at_root && found.best_value > alpha ==> exists|k: int|
                    0 <= k < i && (#[trigger] self.root_moves@[k]).score == found.best_value,
                done && is_pv ==> found.best_value >= beta,
                end == loop_spec(g, line, start, moves@, 0, beta as int, max_depth as int, is_pv),
                !self.cut_short ==> (if done {
                    found.state(self.state()) == end
                } else {
                    loop_spec(
                        g,
                        line,
                        found.state(self.state()),
                        moves@,
                        i as int,
                        beta as int,
                        max_depth as int,
                        is_pv,
                    ) == end
                }),
            decreases moves@.len() - i,
        {
            let mov = moves[i];
            let ghost before = found.state(self.state());
            proof {
                if at_root {
                    assert(line =~= Seq::<BitMove>::empty());
                    assert(moves@[i as int] == self.root_moves@[i as int].bit_move);
                    assert(g.playable(line, self.root_moves@[i as int].bit_move));
                }
            }
            if at_root || self.board.legal_move(mov) {
                let played = found.played + 1;
                let value = self.search_move(
                    mov,
                    found.alpha,
                    beta,
                    max_depth,
                    is_pv,
                    played,
                    in_check,
                );
                if self.stop() {
                    return found;
                }
                if at_root {
                    let mut rm: RootMove = self.root_moves.get(i);
                    if played == 1 || value > found.alpha {
                        rm.depth_reached = max_depth;
                        rm.score = value;
                    } else {
                        rm.score = NEG_INFINITE;
                    }
                    let ghost earlier = self.root_moves@;
                    self.root_moves.set(i, rm);
                    proof {
                        assert(rm == root_update(
                            before.roots[i as int],
                            played as int,
                            value as int,
                            before.alpha,
                            max_depth as int,
                        ));
                        assert(moves_of(self.root_moves@) =~= moves_of(st0.roots));
                        assert forall|k: int| 0 <= k < i implies (
                        #[trigger] self.root_moves@[k]).score == earlier[k].score by {}
                        if found.best_value > alpha {
                            let k = choose|k: int|
                                0 <= k < i && (#[trigger] earlier[k]).score == found.best_value;
                            assert(self.root_moves@[k].score == found.best_value);
                        }
                        assert(self.root_moves@[i as int] == rm);
                    }
                }
                let better = value > found.best_value;
                let raises = better && value > found.alpha;
                found = LoopResult {
                    alpha: if raises && is_pv && value < beta {
                        value
                    } else {
                        found.alpha
                    },
                    best_value: if better {
                        value
                    } else {
                        found.best_value
                    },
                    best_move: if raises {
                        mov
                    } else {
                        found.best_move
                    },
                    played,
                };
                if raises && !(is_pv && value < beta) {
                    done = true;
                }
            }
            i += 1;
        }
        found
    }
}

/// The search is a function of the position, the table and the root
/// moves: for two workers whose boards stand on the same position and
/// that hold the same table content and root moves, searches with the same
/// window, depth and kind of node have the same outcome.
pub proof fn lemma_equal_workers_equal_searches<P: Position, C: SearchControl>(
    a: Searcher<P, C>,
    b: Searcher<P, C>,
    alpha: int,
    beta: int,
    max_depth: int,
    is_pv: bool,
)
    requires
        same_position(a.board, b.board),
        a.state() == b.state(),
    ensures
        search_spec(a.board.game(), a.board.line(), a.state(), alpha, beta, max_depth, is_pv)
            == search_spec(
            b.board.game(),
            b.board.line(),
            b.state(),
            alpha,
            beta,
            max_depth,
            is_pv,
        ),
{
}

/// What the records of the root moves show after a search of the root
/// on the principal variation that found the value `best` in the window
/// from `alpha` to `beta`: where the value stayed below `beta`, no record
/// has a higher score; and where the value lies above `alpha`, a record has
/// that very score.
pub open spec fn topped(roots: Seq<RootMove>, best: int, alpha: int, beta: int) -> bool {
    &&& best < beta ==> forall|k: int| 0 <= k < roots.len() ==> (#[trigger] roots[k]).score <= best
    &&& best > alpha ==> exists|k: int| 0 <= k < roots.len() && (#[trigger] roots[k]).score == best
}

/// What entering a node comes to.
#[derive(Clone, Copy, PartialEq, Eq, Debug)]
pub enum NodeEntry {
    /// The node is settled with this value.
    Done { value: Value },
    /// The moves are to be tried; the node has this place in the table
    /// and this static evaluation.
    Open { slot: usize, pos_eval: Value },
}

impl NodeEntry {
    /// The same as a mathematical value, together with the table.
    pub open spec fn view(self, tt: crate::tt::TtView) -> Entered {
        match self {
            NodeEntry::Done { value } => Entered::Done { value: value as int, tt },
            NodeEntry::Open { slot, pos_eval } => Entered::Open {
                slot: slot as int,
                pos_eval: pos_eval as int,
                tt,
            },
        }
    }
}

/// What the move loop of a node has found so far.
#[derive(Clone, Copy, PartialEq, Eq, Debug)]
pub struct LoopResult {
    /// The lower edge of the window, raised by the moves searched.
    pub alpha: Value,
    /// The best value of a move searched; minus infinity before the first.
    pub best_value: Value,
    /// The last move that beat alpha; the null move if none did.
    pub best_move: BitMove,
    /// The number of moves searched.
    pub played: usize,
}

impl LoopResult {
    /// The state of the move loop that the result stands for, together
    /// with the table and the root moves.
    pub open spec fn state(self, st: SearchState) -> LoopState {
        LoopState {
            tt: st.tt,
            roots: st.roots,
            alpha: self.alpha as int,
            best_value: self.best_value as int,
            best_move: self.best_move,
            played: self.played as int,
        }
    }
}

} // verus!
