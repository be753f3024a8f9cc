use pleco_engine::bots::{minimax, AlphaBetaSearcher, MiniMaxSearcher, RandomBot};
use pleco_engine::game_tree::{Edge, GameTree};
use pleco_engine::parallel::{JamboreeSearcher, ParallelMiniMaxSearcher};
use pleco_engine::piece_locations::PieceLocations;
use pleco_engine::piece_move::BitMove;
use pleco_engine::position::Position;
use pleco_engine::score::{DRAW, INFINITE, MATE, NEG_INFINITE};
use pleco_engine::search::Searcher;
use pleco_engine::time::{Limits, LimitsType, Untimed};
use pleco_engine::tree_position::TreePosition;
use pleco_engine::types::{PieceType, Player, SQ};
use rand::Rng;

const START: &str = "rnbqkbnr/pppppppp/8/8/8/8/PPPPPPPP/RNBQKBNR w KQkq - 0 1";

#[derive(Clone)]
struct Chess {
    board: PieceLocations,
    turn: Player,
    castle: [bool; 4],
    ep: Option<u8>,
}

fn on_board(file: i8, rank: i8) -> bool {
    file >= 0 && file < 8 && rank >= 0 && rank < 8
}

fn square(file: i8, rank: i8) -> u8 {
    (rank * 8 + file) as u8
}

fn value_of(piece: PieceType) -> i32 {
    match piece {
        PieceType::P => 100,
        PieceType::N => 320,
        PieceType::B => 330,
        PieceType::R => 500,
        PieceType::Q => 900,
        PieceType::K => 0,
    }
}

const PAWN_SQUARES: [i32; 64] = [
    0, 0, 0, 0, 0, 0, 0, 0, //
    5, 10, 10, -20, -20, 10, 10, 5, //
    5, -5, -10, 0, 0, -10, -5, 5, //
    0, 0, 0, 20, 20, 0, 0, 0, //
    5, 5, 10, 25, 25, 10, 5, 5, //
    10, 10, 20, 30, 30, 20, 10, 10, //
    50, 50, 50, 50, 50, 50, 50, 50, //
    0, 0, 0, 0, 0, 0, 0, 0,
];

const KNIGHT_SQUARES: [i32; 64] = [
    -50, -40, -30, -30, -30, -30, -40, -50, //
    -40, -20, 0, 5, 5, 0, -20, -40, //
    -30, 5, 10, 15, 15, 10, 5, -30, //
    -30, 0, 15, 20, 20, 15, 0, -30, //
    -30, 5, 15, 20, 20, 15, 5, -30, //
    -30, 0, 10, 15, 15, 10, 0, -30, //
    -40, -20, 0, 0, 0, 0, -20, -40, //
    -50, -40, -30, -30, -30, -30, -40, -50,
];

const KNIGHT: [(i8, i8); 8] =
    [(1, 2), (2, 1), (2, -1), (1, -2), (-1, -2), (-2, -1), (-2, 1), (-1, 2)];
const KING: [(i8, i8); 8] =
    [(1, 0), (1, 1), (0, 1), (-1, 1), (-1, 0), (-1, -1), (0, -1), (1, -1)];
const ROOK: [(i8, i8); 4] = [(1, 0), (0, 1), (-1, 0), (0, -1)];
const BISHOP: [(i8, i8); 4] = [(1, 1), (-1, 1), (-1, -1), (1, -1)];

impl Chess {
    fn from_fen(fen: &str) -> Chess {
        let fields: Vec<&str> = fen.split(' ').collect();
        let ranks: Vec<&str> = fields[0].split('/').collect();
        let (board, _) = PieceLocations::from_partial_fen(&ranks).unwrap();
        assert!(board.has_both_kings());
        let turn = if fields[1] == "w" { Player::White } else { Player::Black };
        let rights = fields[2];
        let castle = [
            rights.contains('K'),
            rights.contains('Q'),
            rights.contains('k'),
            rights.contains('q'),
        ];
        let ep = if fields[3] == "-" {
            None
        } else {
            let b = fields[3].as_bytes();
            Some(square((b[0] - b'a') as i8, (b[1] - b'1') as i8))
        };
        Chess { board, turn, castle, ep }
    }

    fn at(&self, file: i8, rank: i8) -> Option<(Player, PieceType)> {
        if on_board(file, rank) {
            self.board.player_piece_at(SQ(square(file, rank)))
        } else {
            None
        }
    }

    fn attacked(&self, sq: u8, by: Player) -> bool {
        let (f, r) = ((sq % 8) as i8, (sq / 8) as i8);
        let back = if by == Player::White { -1 } else { 1 };
        for df in [-1, 1] {
            if self.at(f + df, r + back) == Some((by, PieceType::P)) {
                return true;
            }
        }
        for (df, dr) in KNIGHT {
            if self.at(f + df, r + dr) == Some((by, PieceType::N)) {
                return true;
            }
        }
        for (df, dr) in KING {
            if self.at(f + df, r + dr) == Some((by, PieceType::K)) {
                return true;
            }
        }
        for (dirs, slider) in [(ROOK, PieceType::R), (BISHOP, PieceType::B)] {
            for (df, dr) in dirs {
                let (mut x, mut y) = (f + df, r + dr);
                while on_board(x, y) {
                    if let Some((owner, piece)) = self.at(x, y) {
                        if owner == by && (piece == slider || piece == PieceType::Q) {
                            return true;
                        }
                        break;
                    }
                    x += df;
                    y += dr;
                }
            }
        }
        false
    }

    fn king_safe(&self, player: Player) -> bool {
        let king = self.board.first_square(PieceType::K, player).unwrap();
        !self.attacked(king.0, player.other_player())
    }

    fn in_check(&self) -> bool {
        !self.king_safe(self.turn)
    }

    fn push(&self, out: &mut Vec<Edge>, flags: u16, from: u8, to: u8, mover: PieceType) {
        let victim = if flags == 5 {
            Some(PieceType::P)
        } else {
            self.board.piece_at(SQ(to))
        };
        out.push(Edge {
            mv: BitMove::make(flags, SQ(from), SQ(to)),
            legal: false,
            child: 0,
            mover,
            victim,
        });
    }

    fn step_moves(&self, out: &mut Vec<Edge>, from: u8, piece: PieceType, steps: &[(i8, i8)]) {
        let (f, r) = ((from % 8) as i8, (from / 8) as i8);
        for (df, dr) in steps {
            if on_board(f + df, r + dr) {
                match self.at(f + df, r + dr) {
                    None => self.push(out, 0, from, square(f + df, r + dr), piece),
                    Some((owner, _)) => {
                        if owner != self.turn {
                            self.push(out, 4, from, square(f + df, r + dr), piece);
                        }
                    }
                }
            }
        }
    }

    fn slide_moves(&self, out: &mut Vec<Edge>, from: u8, piece: PieceType, dirs: &[(i8, i8)]) {
        let (f, r) = ((from % 8) as i8, (from / 8) as i8);
        for (df, dr) in dirs {
            let (mut x, mut y) = (f + df, r + dr);
            while on_board(x, y) {
                match self.at(x, y) {
                    None => self.push(out, 0, from, square(x, y), piece),
                    Some((owner, _)) => {
                        if owner != self.turn {
                            self.push(out, 4, from, square(x, y), piece);
                        }
                        break;
                    }
                }
                x += df;
                y += dr;
            }
        }
    }

    fn pawn_moves(&self, out: &mut Vec<Edge>, from: u8) {
        let (f, r) = ((from % 8) as i8, (from / 8) as i8);
        let (up, home, last) = if self.turn == Player::White { (1, 1, 7) } else { (-1, 6, 0) };
        if on_board(f, r + up) && self.at(f, r + up).is_none() {
            let to = square(f, r + up);
            if r + up == last {
                for promo in 8..12 {
                    self.push(out, promo, from, to, PieceType::P);
                }
            } else {
                self.push(out, 0, from, to, PieceType::P);
                if r == home && self.at(f, r + 2 * up).is_none() {
                    self.push(out, 1, from, square(f, r + 2 * up), PieceType::P);
                }
            }
        }
        for df in [-1, 1] {
            if !on_board(f + df, r + up) {
                continue;
            }
            let to = square(f + df, r + up);
            match self.at(f + df, r + up) {
                Some((owner, _)) => {
                    if owner != self.turn {
                        if r + up == last {
                            for promo in 12..16 {
                                self.push(out, promo, from, to, PieceType::P);
                            }
                        } else {
                            self.push(out, 4, from, to, PieceType::P);
                        }
                    }
                }
                None => {
                    if self.ep == Some(to) {
                        self.push(out, 5, from, to, PieceType::P);
                    }
                }
            }
        }
    }

    fn castle_moves(&self, out: &mut Vec<Edge>) {
        let (rank, king_side, queen_side) = if self.turn == Player::White {
            (0, self.castle[0], self.castle[1])
        } else {
            (7, self.castle[2], self.castle[3])
        };
        let them = self.turn.other_player();
        let home = square(4, rank);
        if self.at(4, rank) != Some((self.turn, PieceType::K)) || self.attacked(home, them) {
            return;
        }
        if king_side
            && self.at(7, rank) == Some((self.turn, PieceType::R))
            && self.at(5, rank).is_none()
            && self.at(6, rank).is_none()
            && !self.attacked(square(5, rank), them)
        {
            self.push(out, 2, home, square(6, rank), PieceType::K);
        }
        if queen_side
            && self.at(0, rank) == Some((self.turn, PieceType::R))
            && self.at(1, rank).is_none()
            && self.at(2, rank).is_none()
            && self.at(3, rank).is_none()
            && !self.attacked(square(3, rank), them)
        {
            self.push(out, 3, home, square(2, rank), PieceType::K);
        }
    }

    fn pseudo_moves(&self) -> Vec<Edge> {
        let mut out = Vec::new();
        for from in 0..64u8 {
            if let Some((owner, piece)) = self.board.player_piece_at(SQ(from)) {
                if owner != self.turn {
                    continue;
                }
                match piece {
                    PieceType::P => self.pawn_moves(&mut out, from),
                    PieceType::N => self.step_moves(&mut out, from, piece, &KNIGHT),
                    PieceType::K => self.step_moves(&mut out, from, piece, &KING),
                    PieceType::R => self.slide_moves(&mut out, from, piece, &ROOK),
                    PieceType::B => self.slide_moves(&mut out, from, piece, &BISHOP),
                    PieceType::Q => {
                        self.slide_moves(&mut out, from, piece, &ROOK);
                        self.slide_moves(&mut out, from, piece, &BISHOP);
                    }
                }
            }
        }
        self.castle_moves(&mut out);
        out
    }

    fn play(&self, m: BitMove) -> Chess {
        let mut next = self.clone();
        let (from, to) = (m.get_src(), m.get_dest());
        let flags = m.get_raw() / 4096;
        let (owner, piece) = self.board.player_piece_at(from).unwrap();
        next.board.remove(from);
        if flags == 5 {
            let behind = if owner == Player::White { to.0 - 8 } else { to.0 + 8 };
            next.board.remove(SQ(behind));
        }
        let placed = if m.is_promo() {
            [PieceType::N, PieceType::B, PieceType::R, PieceType::Q][(flags % 4) as usize]
        } else {
            piece
        };
        next.board.place(to, owner, placed);
        if m.is_castle() {
            let rank = to.0 / 8;
            let (rook_from, rook_to) = if flags == 2 { (7, 5) } else { (0, 3) };
            next.board.remove(SQ(rank * 8 + rook_from));
            next.board.place(SQ(rank * 8 + rook_to), owner, PieceType::R);
        }
        for (k, corner, king) in [(0, 7u8, 4u8), (1, 0, 4), (2, 63, 60), (3, 56, 60)] {
            if from.0 == corner || to.0 == corner || from.0 == king {
                next.castle[k] = false;
            }
        }
        next.ep = if m.is_double_push().0 { Some((from.0 + to.0) / 2) } else { None };
        next.turn = owner.other_player();
        next
    }

    fn eval(&self) -> i32 {
        let mut total = 0;
        for sq in 0..64u8 {
            if let Some((owner, piece)) = self.board.player_piece_at(SQ(sq)) {
                let seen = if owner == Player::White { sq } else { sq ^ 56 } as usize;
                let bonus = match piece {
                    PieceType::P => PAWN_SQUARES[seen],
                    PieceType::N => KNIGHT_SQUARES[seen],
                    PieceType::B => KNIGHT_SQUARES[seen] / 2,
                    _ => 0,
                };
                let worth = value_of(piece) + bonus;
                total += if owner == self.turn { worth } else { -worth };
            }
        }
        total
    }

    fn key(&self) -> u64 {
        let mut h: u64 = 0x9E37_79B9_7F4A_7C15;
        let mut mix = |v: u64| {
            h ^= v.wrapping_add(0x9E37_79B9_7F4A_7C15).wrapping_add(h << 6).wrapping_add(h >> 2);
            h = h.wrapping_mul(0xBF58_476D_1CE4_E5B9);
            h ^= h >> 29;
        };
        for sq in 0..64u8 {
            let code = match self.board.player_piece_at(SQ(sq)) {
                None => 0,
                Some((owner, piece)) => {
                    1 + value_of(piece) as u64
                        + if piece == PieceType::B { 7 } else { 0 }
                        + if owner == Player::Black { 5000 } else { 0 }
                }
            };
            mix(code * 64 + sq as u64);
        }
        mix(if self.turn == Player::White { 1 } else { 2 });
        for k in 0..4 {
            mix(if self.castle[k] { 11 + k as u64 } else { 3 });
        }
        mix(self.ep.map_or(99, |sq| sq as u64));
        h
    }
}

fn build(tree: &mut GameTree, pos: &Chess, depth: u32) -> usize {
    let mut edges = Vec::new();
    if depth > 0 {
        for mut edge in pos.pseudo_moves() {
            let next = pos.play(edge.mv);
            if next.king_safe(pos.turn) {
                edge.legal = true;
                edge.child = build(tree, &next, depth - 1);
            }
            edges.push(edge);
        }
    }
    tree.add_node(pos.eval(), pos.in_check(), pos.key(), edges)
}

fn board_of(pos: &Chess, depth: u32) -> TreePosition {
    let mut tree = GameTree::new();
    let root = build(&mut tree, pos, depth);
    TreePosition::new(tree, root, pos.turn).unwrap()
}

fn go_depth(fen: &str, depth: u16) -> Searcher<TreePosition, Untimed> {
    let pos = Chess::from_fen(fen);
    let board = board_of(&pos, depth as u32 - 1);
    let mut worker = Searcher::new(0, board, Untimed {}, 16);
    worker.new_search(Limits { limits_type: LimitsType::Depth(depth) });
    let best = worker.main_thread_go();
    assert!(!worker.cut_short);
    assert_eq!(worker.depth_completed, depth - 1);
    assert_eq!(worker.result().best_move, best);
    assert_eq!(worker.board.depth(), 0);
    worker
}

fn legal_count(pos: &Chess, depth: u32) -> u64 {
    if depth == 0 {
        return 1;
    }
    let mut n = 0;
    for edge in pos.pseudo_moves() {
        let next = pos.play(edge.mv);
        if next.king_safe(pos.turn) {
            n += legal_count(&next, depth - 1);
        }
    }
    n
}

fn random_position() -> Chess {
    let mut rng = rand::thread_rng();
    loop {
        let mut pos = Chess::from_fen(START);
        for _ in 0..rng.gen_range(0..40) {
            let legal: Vec<Edge> = pos
                .pseudo_moves()
                .into_iter()
                .filter(|e| pos.play(e.mv).king_safe(pos.turn))
                .collect();
            if legal.is_empty() {
                break;
            }
            pos = pos.play(legal[rng.gen_range(0..legal.len())].mv);
        }
        if legal_count(&pos, 2) <= 900 {
            return pos;
        }
    }
}

#[test]
fn test_all_bot() {
    for _x in 0..3 {
        let board: TreePosition = board_of(&random_position(), 4);
        RandomBot::best_move_depth(board.shallow_clone(), 4);
        MiniMaxSearcher::best_move_depth(board.shallow_clone(), 4);
        AlphaBetaSearcher::best_move_depth(board.shallow_clone(), 4);
        ParallelMiniMaxSearcher::best_move_depth(board.shallow_clone(), 4);
        JamboreeSearcher::best_move_depth(board.shallow_clone(), 4);
    }
}

#[test]
fn bots_agree_on_a_chess_position() {
    let pos = Chess::from_fen("r1bqkbnr/pppp1ppp/2n5/4p3/4P3/5N2/PPPP1PPP/RNBQKB1R w KQkq - 2 3");
    let mut board = board_of(&pos, 3);
    let plain = minimax(&mut board, 3);
    assert_eq!(MiniMaxSearcher::best_move_depth(board.shallow_clone(), 3), plain.best_move.unwrap());
    assert_eq!(
        ParallelMiniMaxSearcher::best_move_depth(board.shallow_clone(), 3),
        plain.best_move.unwrap()
    );
    for pick in [
        AlphaBetaSearcher::best_move_depth(board.shallow_clone(), 3),
        JamboreeSearcher::best_move_depth(board.shallow_clone(), 3),
    ] {
        board.apply_move(pick);
        assert_eq!(-minimax(&mut board, 3).score, plain.score);
        board.undo_move();
    }
    let any = RandomBot::best_move_depth(board.shallow_clone(), 3);
    assert!(board.generate_moves().contains(&any));
}

#[test]
fn move_counts_of_known_positions() {
    let start = Chess::from_fen(START);
    assert_eq!(legal_count(&start, 1), 20);
    assert_eq!(legal_count(&start, 2), 400);
    assert_eq!(legal_count(&start, 3), 8902);
    let kiwipete =
        Chess::from_fen("r3k2r/p1ppqpb1/bn2pnp1/3PN3/1p2P3/2N2Q1p/PPPBBPPP/R3K2R w KQkq - 0 1");
    assert_eq!(legal_count(&kiwipete, 1), 48);
    assert_eq!(legal_count(&kiwipete, 2), 2039);
    let endgame = Chess::from_fen("8/2p5/3p4/KP5r/1R3p1k/8/4P1P1/8 w - - 0 1");
    assert_eq!(legal_count(&endgame, 1), 14);
    assert_eq!(legal_count(&endgame, 2), 191);
    assert_eq!(legal_count(&endgame, 3), 2812);
}

#[test]
fn generated_moves_are_the_legal_pseudo_legal_moves() {
    let pos = Chess::from_fen("r3k2r/p1ppqpb1/bn2pnp1/3PN3/1p2P3/2N2Q1p/PPPBBPPP/R3K2R w KQkq - 0 1");
    let mut board = board_of(&pos, 2);
    for reply in board.generate_moves() {
        board.apply_move(reply);
        let pseudo = board.generate_pseudolegal_moves();
        let legal = board.generate_moves();
        let kept: Vec<BitMove> =
            pseudo.iter().copied().filter(|m| board.legal_move(*m)).collect();
        assert_eq!(legal, kept);
        assert!(legal.len() <= pseudo.len());
        board.undo_move();
    }
}

#[test]
fn start_position_depth_four() {
    let worker = go_depth(START, 4);
    let best = worker.result().best_move.stringify();
    assert!(["e2e4", "d2d4", "g1f3", "c2c4", "b1c3"].contains(&best.as_str()), "{}", best);
    assert!(NEG_INFINITE < worker.previous_score && worker.previous_score < INFINITE);
    assert_eq!(worker.root_moves.len(), 20);
}

#[test]
fn pawn_up_endgame_depth_six() {
    let fen = "4k3/8/8/8/8/8/4P3/4K3 w - - 0 1";
    let worker = go_depth(fen, 6);
    assert!(worker.previous_score > 0);
    let mut pos = Chess::from_fen(fen);
    pos = pos.play(worker.result().best_move);
    assert_eq!(pos.board.count_piece(Player::White, PieceType::P), 1);
    assert!(pos.king_safe(Player::White));
}

#[test]
fn opening_position_depth_five() {
    let fen = "r1bqkbnr/pppp1ppp/2n5/4p3/4P3/5N2/PPPP1PPP/RNBQKB1R w KQkq - 2 3";
    let worker = go_depth(fen, 5);
    let best = worker.result().best_move;
    let pos = Chess::from_fen(fen);
    assert!(pos.pseudo_moves().iter().any(|e| e.mv == best));
    let next = pos.play(best);
    assert!(next.king_safe(Player::White));
    assert!(next.board.has_both_kings());
}

#[test]
fn rook_mate_depth_five() {
    let worker = go_depth("6k1/5ppp/8/8/8/8/5PPP/R5K1 w - - 0 1", 5);
    assert!(worker.previous_score >= MATE - 10);
    assert_eq!(worker.result().best_move.stringify(), "a1a8");
    assert_eq!(worker.previous_score, -(MATE - 1));
}

#[test]
fn mate_in_two_is_found() {
    let worker = go_depth("7k/8/5K2/8/8/8/8/6R1 w - - 0 1", 5);
    assert!(worker.previous_score >= MATE - 4);
    assert_eq!(worker.result().best_move.stringify(), "f6f7");
    assert_eq!(worker.previous_score, -(MATE - 3));
}

#[test]
fn stalemate_position() {
    let pos = Chess::from_fen("7k/5Q2/6K1/8/8/8/8/8 b - - 0 1");
    let board = board_of(&pos, 3);
    let mut worker = Searcher::new(0, board, Untimed {}, 1);
    worker.new_search(Limits { limits_type: LimitsType::Depth(4) });
    assert!(worker.root_moves.is_empty());
    assert_eq!(worker.search::<pleco_engine::consts::PV>(NEG_INFINITE, INFINITE, 3), DRAW);
    let best = worker.main_thread_go();
    assert_eq!(best.stringify(), "0000");
}

#[test]
fn two_engines_agree_at_depth_six() {
    let fen = "8/2p5/3p4/KP5r/1R3p1k/8/4P1P1/8 w - - 0 1";
    let first = go_depth(fen, 6);
    let second = go_depth(fen, 6);
    assert_eq!(first.result(), second.result());
    assert_eq!(first.previous_score, second.previous_score);
}
