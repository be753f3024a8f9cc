use pleco_engine::piece_locations::{FenBuildError, PieceLocations};
use pleco_engine::types::{PieceType, Player, SQ};

#[test]
fn piece_loc_blank() {
    let mut l = PieceLocations::blank();
    for s in 0..64 {
        assert!(l.piece_at(SQ(s)).is_none());
    }
    l.place(SQ(3), Player::White, PieceType::P);
    assert_eq!(l.piece_at(SQ(3)).unwrap(), PieceType::P);
    assert_eq!(l.player_at(SQ(3)).unwrap(), Player::White);
    assert_eq!(l.player_piece_at(SQ(3)).unwrap(), (Player::White, PieceType::P));
    assert!(l.at_square(SQ(3)));
    for s in 0..64 {
        if s != 3 {
            assert!(l.piece_at(SQ(s)).is_none());
        }
    }
    l.place(SQ(3), Player::Black, PieceType::K);
    assert_eq!(l.piece_at(SQ(3)).unwrap(), PieceType::K);
    assert_eq!(l.player_at(SQ(3)).unwrap(), Player::Black);
    assert_eq!(l.player_piece_at(SQ(3)).unwrap(), (Player::Black, PieceType::K));
    assert!(l.at_square(SQ(3)));
    assert!(l.contains(PieceType::K, Player::Black));
    for s in 0..64 {
        if s != 3 {
            assert!(l.piece_at(SQ(s)).is_none());
        }
    }
    l.remove(SQ(3));
    for s in 0..64 {
        assert!(l.piece_at(SQ(s)).is_none());
    }
    l.remove(SQ(3));
    for s in 0..64 {
        assert!(l.piece_at(SQ(s)).is_none());
    }
    let c = l.clone();
    assert!(c == l);
}

#[test]
fn place_then_query_every_piece_on_every_square() {
    let players = [Player::White, Player::Black];
    let pieces = [
        PieceType::P,
        PieceType::N,
        PieceType::B,
        PieceType::R,
        PieceType::Q,
        PieceType::K,
    ];
    for player in players {
        for piece in pieces {
            for s in 0..64u8 {
                let mut l = PieceLocations::blank();
                l.place(SQ(s), player, piece);
                assert_eq!(l.player_piece_at(SQ(s)), Some((player, piece)));
                assert_eq!(l.piece_at(SQ(s)), Some(piece));
                assert_eq!(l.player_at(SQ(s)), Some(player));
                assert_eq!(l.piece_at_for_player(SQ(s), player), Some(piece));
                assert_eq!(l.piece_at_for_player(SQ(s), player.other_player()), None);
                assert_eq!(l.first_square(piece, player), Some(SQ(s)));
                l.remove(SQ(s));
                assert_eq!(l.player_piece_at(SQ(s)), None);
                assert!(!l.at_square(SQ(s)));
                assert!(!l.contains(piece, player));
                assert!(l == PieceLocations::blank());
            }
        }
    }
}

#[test]
fn same_position_by_two_routes_is_equal() {
    let mut a = PieceLocations::blank();
    a.place(SQ(4), Player::White, PieceType::K);
    a.place(SQ(60), Player::Black, PieceType::K);
    let mut b = PieceLocations::blank();
    b.place(SQ(60), Player::Black, PieceType::Q);
    b.place(SQ(12), Player::White, PieceType::P);
    b.remove(SQ(12));
    b.place(SQ(60), Player::Black, PieceType::K);
    b.place(SQ(4), Player::White, PieceType::K);
    assert!(a == b);
    b.remove(SQ(4));
    assert!(a != b);
}

#[test]
fn default_reads_as_white_pawns() {
    let l = PieceLocations::default();
    for s in 0..64 {
        assert_eq!(l.player_piece_at(SQ(s)), Some((Player::White, PieceType::P)));
    }
    assert_eq!(l.first_square(PieceType::P, Player::White), Some(SQ(0)));
}

#[test]
fn test_counts() {
    let ranks = [
        "rnbqkbnr", "pppppppp", "8", "8", "8", "8", "PPPPPPPP", "RNBQKBNR",
    ];
    let (board, _) = PieceLocations::from_partial_fen(&ranks).unwrap();

    let count_w_p = board.count_piece(Player::White, PieceType::P);
    assert_eq!(count_w_p, 8);

    let count_w_n = board.count_piece(Player::White, PieceType::N);
    assert_eq!(count_w_n, 2);

    let count_w_b = board.count_piece(Player::White, PieceType::B);
    assert_eq!(count_w_b, 2);

    let count_w_r = board.count_piece(Player::White, PieceType::R);
    assert_eq!(count_w_r, 2);

    let count_w_k = board.count_piece(Player::White, PieceType::K);
    assert_eq!(count_w_k, 1);

    let count_w_q = board.count_piece(Player::White, PieceType::Q);
    assert_eq!(count_w_q, 1);

    let count_b_p = board.count_piece(Player::Black, PieceType::P);
    assert_eq!(count_b_p, 8);

    let count_b_n = board.count_piece(Player::Black, PieceType::N);
    assert_eq!(count_b_n, 2);

    let count_b_b = board.count_piece(Player::Black, PieceType::B);
    assert_eq!(count_b_b, 2);

    let count_b_r = board.count_piece(Player::Black, PieceType::R);
    assert_eq!(count_b_r, 2);

    let count_b_k = board.count_piece(Player::Black, PieceType::K);
    assert_eq!(count_b_k, 1);

    let count_b_q = board.count_piece(Player::Black, PieceType::Q);
    assert_eq!(count_b_q, 1);
}

#[test]
fn kings_are_counted() {
    let (board, _) =
        PieceLocations::from_partial_fen(&["4k3", "8", "8", "8", "8", "8", "4P3", "4K3"]).unwrap();
    assert!(board.has_both_kings());
    let (board, _) = PieceLocations::from_partial_fen(&["4k3", "4k3"]).unwrap();
    assert!(!board.has_both_kings());
    assert_eq!(board.count_piece(Player::Black, PieceType::K), 2);
    assert!(!PieceLocations::blank().has_both_kings());
    assert_eq!(PieceLocations::default().count_piece(Player::White, PieceType::P), 64);
}

#[test]
fn start_position_placement() {
    let ranks = [
        "rnbqkbnr", "pppppppp", "8", "8", "8", "8", "PPPPPPPP", "RNBQKBNR",
    ];
    let (loc, cnt) = PieceLocations::from_partial_fen(&ranks).unwrap();
    assert_eq!(cnt, [[8, 2, 2, 2, 1, 1], [8, 2, 2, 2, 1, 1]]);
    assert_eq!(loc.player_piece_at(SQ(0)), Some((Player::White, PieceType::R)));
    assert_eq!(loc.player_piece_at(SQ(4)), Some((Player::White, PieceType::K)));
    assert_eq!(loc.player_piece_at(SQ(12)), Some((Player::White, PieceType::P)));
    assert_eq!(loc.player_piece_at(SQ(59)), Some((Player::Black, PieceType::Q)));
    assert_eq!(loc.player_piece_at(SQ(63)), Some((Player::Black, PieceType::R)));
    for s in 16..48 {
        assert_eq!(loc.player_piece_at(SQ(s)), None);
    }
    assert_eq!(loc.first_square(PieceType::K, Player::Black), Some(SQ(60)));
}

#[test]
fn placement_with_gaps() {
    let ranks = ["4k3", "8", "8", "8", "8", "8", "4P3", "4K3"];
    let (loc, cnt) = PieceLocations::from_partial_fen(&ranks).unwrap();
    assert_eq!(cnt, [[1, 0, 0, 0, 0, 1], [0, 0, 0, 0, 0, 1]]);
    assert_eq!(loc.player_piece_at(SQ(60)), Some((Player::Black, PieceType::K)));
    assert_eq!(loc.player_piece_at(SQ(12)), Some((Player::White, PieceType::P)));
    assert_eq!(loc.player_piece_at(SQ(4)), Some((Player::White, PieceType::K)));
}

#[test]
fn placement_errors() {
    let r = PieceLocations::from_partial_fen(&["8", "8", "8", "8", "8", "8", "8", "ppppppppp"]);
    assert_eq!(
        r.err(),
        Some(FenBuildError::SquareLargerRank { rank: 7, square: "a2".to_string() })
    );
    let r = PieceLocations::from_partial_fen(&["9p"]);
    assert_eq!(
        r.err(),
        Some(FenBuildError::SquareLargerRank { rank: 0, square: "-".to_string() })
    );
    let r = PieceLocations::from_partial_fen(&["8", "3x4"]);
    assert_eq!(r.err(), Some(FenBuildError::UnrecognizedPiece { piece: 'x' }));
    let r = PieceLocations::from_partial_fen(&["44p"]);
    assert_eq!(
        r.err(),
        Some(FenBuildError::SquareLargerRank { rank: 0, square: "-".to_string() })
    );
    assert!(PieceLocations::from_partial_fen(&["9"]).is_ok());
    assert!(PieceLocations::from_partial_fen(&[]).is_ok());
}

#[test]
fn square_names() {
    assert_eq!(SQ(0).to_string(), "a1");
    assert_eq!(SQ(7).to_string(), "h1");
    assert_eq!(SQ(28).to_string(), "e4");
    assert_eq!(SQ(63).to_string(), "h8");
    assert_eq!(SQ(64).to_string(), "-");
    assert!(SQ(63).is_okay());
    assert!(!SQ(64).is_okay());
}
