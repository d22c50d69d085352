use chess_ai::eval::{material_balance, max_score, min_score, points_for_piece, score_for, Score};
use chess_ai::position::{Color, Move, Piece, Position, Status};
use chess_ai::root::{best_move, select_best, SearchError};
use chess_ai::tree::SearchNode;
use std::str::FromStr;

const START: &str = "rnbqkbnr/pppppppp/8/8/8/8/PPPPPPPP/RNBQKBNR w KQkq - 0 1";
const SIX_PIECES: &str = "4k3/4p3/8/8/8/8/4P3/R3K2R w KQ - 0 1";

fn side_of(side: Color) -> chess::Color {
    match side {
        Color::White => chess::Color::White,
        Color::Black => chess::Color::Black,
    }
}

fn points(piece: chess::Piece) -> Score {
    match piece {
        chess::Piece::Pawn => 1,
        chess::Piece::Knight | chess::Piece::Bishop => 3,
        chess::Piece::Rook => 5,
        chess::Piece::Queen => 9,
        chess::Piece::King => 200,
    }
}

fn plain_score(board: &chess::Board, side: chess::Color) -> Score {
    let mut score: Score = 0;
    for mv in chess::MoveGen::new_legal(board) {
        if board.color_on(mv.get_source()) == Some(side) {
            score += 1;
        }
    }
    for square in chess::ALL_SQUARES.iter() {
        if let Some(piece) = board.piece_on(*square) {
            if board.color_on(*square) == Some(side) {
                score += points(piece);
            } else {
                score -= points(piece);
            }
        }
    }
    score
}

fn plain_minimax(board: &chess::Board, depth: usize, side: chess::Color) -> Score {
    match board.status() {
        chess::BoardStatus::Stalemate => return 0,
        chess::BoardStatus::Checkmate => {
            let attacker = board.color_on(board.checkers().to_square());
            return if attacker == Some(side) { Score::MAX } else { -Score::MAX };
        }
        chess::BoardStatus::Ongoing => {}
    }
    if depth == 0 {
        return plain_score(board, side);
    }
    let maximize = board.side_to_move() == side;
    let mut value = if maximize { -Score::MAX } else { Score::MAX };
    for mv in chess::MoveGen::new_legal(board) {
        let found = plain_minimax(&board.make_move_new(mv), depth - 1, side);
        if maximize {
            value = value.max(found);
        } else {
            value = value.min(found);
        }
    }
    value
}

fn node_for(fen: &str, side: Color) -> SearchNode {
    SearchNode::new(Position::from_fen(fen).expect("a legal position"), side)
}

#[test]
fn sentinels_can_be_negated() {
    assert_eq!(max_score(), Score::MAX);
    assert_eq!(min_score(), -Score::MAX);
    assert_eq!(-min_score(), max_score());
    assert_eq!(-max_score(), min_score());
}

#[test]
fn static_score_of_the_start() {
    let position = Position::from_fen(START).unwrap();
    assert_eq!(score_for(&position, Color::White), 20);
    assert_eq!(score_for(&position, Color::Black), 0);
}

#[test]
fn static_score_of_six_pieces() {
    let position = Position::from_fen(SIX_PIECES).unwrap();
    assert_eq!(position.legal_moves().len(), 27);
    assert_eq!(score_for(&position, Color::White), 27 + 211 - 201);
    assert_eq!(score_for(&position, Color::Black), 201 - 211);
}

#[test]
fn static_score_is_the_same_every_time() {
    let position = Position::from_fen(SIX_PIECES).unwrap();
    let first = score_for(&position, Color::White);
    let second = score_for(&position, Color::White);
    assert_eq!(first, second);
    let again = Position::from_fen(SIX_PIECES).unwrap();
    assert_eq!(score_for(&again, Color::White), first);
}

#[test]
fn search_agrees_with_plain_minimax() {
    for fen in [SIX_PIECES, "4k3/8/8/3q4/8/8/4P3/4K2R w K - 0 1", "8/8/8/8/8/1k6/7r/K7 w - - 0 1"] {
        for side in [Color::White, Color::Black] {
            for depth in 0..3 {
                let mut node = node_for(fen, side);
                let found = node.alpha_beta(depth, min_score(), max_score(), side);
                let board = chess::Board::from_str(fen).unwrap();
                let plain = plain_minimax(&board, depth, side_of(side));
                assert_eq!(found.0, plain, "{} {}", fen, depth);
                assert_eq!(node.score(), found.0);
            }
        }
    }
}

#[test]
fn depth_zero_keeps_the_score() {
    let mut node = node_for(SIX_PIECES, Color::White);
    let found = node.alpha_beta(0, min_score(), max_score(), Color::White);
    assert_eq!(found, (37, None));
    assert!(!node.is_expanded());
}

#[test]
fn checkmate_is_a_win_for_the_mating_side() {
    let mated = "rnb1kbnr/pppp1ppp/8/4p3/6Pq/5P2/PPPPP2P/RNBQKBNR w KQkq - 0 1";
    let position = Position::from_fen(mated).unwrap();
    assert_eq!(position.status(), Status::Checkmate);
    assert_eq!(position.attacker(), Some(Color::Black));
    for depth in 0..3 {
        let mut node = node_for(mated, Color::Black);
        let found = node.alpha_beta(depth, min_score(), max_score(), Color::Black);
        assert_eq!(found, (max_score(), None));
        assert_eq!(node.score(), max_score());
        let mut node = node_for(mated, Color::White);
        let found = node.alpha_beta(depth, min_score(), max_score(), Color::White);
        assert_eq!(found, (min_score(), None));
    }
}

#[test]
fn stalemate_scores_nothing() {
    let stuck = "7k/8/8/8/8/8/5q2/7K w - - 0 1";
    let position = Position::from_fen(stuck).unwrap();
    assert_eq!(position.status(), Status::Stalemate);
    for side in [Color::White, Color::Black] {
        let mut node = node_for(stuck, side);
        assert_eq!(node.alpha_beta(2, min_score(), max_score(), side), (0, None));
        assert_eq!(node.score(), 0);
    }
}

#[test]
fn first_of_equal_scores_is_chosen() {
    assert_eq!(select_best(&vec![3, 7, 7, 1]), 1);
    assert_eq!(select_best(&vec![5]), 0);
    assert_eq!(select_best(&vec![2, 2, 2]), 0);
    assert_eq!(select_best(&vec![-4, -9, 0]), 2);
}

#[test]
fn a_single_move_is_played_without_search() {
    let fen = "7k/8/8/8/8/8/7r/K7 w - - 0 1";
    let root = node_for(fen, Color::White);
    let (mv, kept) = best_move(root, 6, Color::White).expect("a move");
    assert_eq!(mv, Move { source: 0, dest: 1, promotion: None });
    assert!(!kept.is_expanded());
    assert_eq!(kept.score(), score_for(kept.position(), Color::White));
}

#[test]
fn the_best_move_has_the_greatest_score() {
    let depth = 2;
    let root = node_for(SIX_PIECES, Color::White);
    let (mv, kept) = best_move(root, depth, Color::White).expect("a move");
    let board = chess::Board::from_str(SIX_PIECES).unwrap();
    let mut best: Option<(Score, chess::ChessMove)> = None;
    for candidate in chess::MoveGen::new_legal(&board) {
        let score = plain_minimax(&board.make_move_new(candidate), depth, chess::Color::White);
        if best.map_or(true, |(top, _)| score > top) {
            best = Some((score, candidate));
        }
    }
    let (score, expected) = best.unwrap();
    assert_eq!(mv.source, expected.get_source().to_int());
    assert_eq!(mv.dest, expected.get_dest().to_int());
    assert_eq!(kept.score(), score);
    assert_eq!(kept.position().fen(), board.make_move_new(expected).to_string());
}

#[test]
fn no_move_for_the_side_that_waits() {
    let root = node_for(START, Color::Black);
    assert_eq!(best_move(root, 1, Color::Black).err(), Some(SearchError::NotToMove));
}

#[test]
fn no_move_when_the_game_is_over() {
    let root = node_for("7k/8/8/8/8/8/5q2/7K w - - 0 1", Color::White);
    assert_eq!(best_move(root, 1, Color::White).err(), Some(SearchError::NoMove));
}

#[test]
fn pieces_have_their_worth() {
    assert_eq!(points_for_piece(Piece::Pawn), 1);
    assert_eq!(points_for_piece(Piece::Knight), 3);
    assert_eq!(points_for_piece(Piece::Bishop), 3);
    assert_eq!(points_for_piece(Piece::Rook), 5);
    assert_eq!(points_for_piece(Piece::Queen), 9);
    assert_eq!(points_for_piece(Piece::King), 200);
}

#[test]
fn material_is_counted_for_both_sides() {
    let start = Position::from_fen(START).unwrap();
    assert_eq!(material_balance(&start, Color::White), 0);
    let queen_up = Position::from_fen("4k3/8/8/8/8/8/8/3QK3 w - - 0 1").unwrap();
    assert_eq!(material_balance(&queen_up, Color::White), 9);
    assert_eq!(material_balance(&queen_up, Color::Black), -9);
}

#[test]
fn the_other_side_is_the_opponent() {
    assert_eq!(Color::White.opponent(), Color::Black);
    assert_eq!(Color::Black.opponent(), Color::White);
}

#[test]
fn the_static_score_agrees_with_a_plain_count() {
    for fen in [START, SIX_PIECES, "8/1k3Pr1/8/3N2q1/8/8/7K/8 w - - 0 1"] {
        let board = chess::Board::from_str(fen).unwrap();
        let position = Position::from_fen(fen).unwrap();
        for side in [Color::White, Color::Black] {
            assert_eq!(score_for(&position, side), plain_score(&board, side_of(side)));
        }
    }
}

#[test]
fn a_search_counts_its_nodes() {
    let mut node = node_for(SIX_PIECES, Color::White);
    assert_eq!(node.size(), 1);
    node.expand(Color::White);
    assert_eq!(node.size(), 28);
    let mut node = node_for("7k/8/8/8/8/8/7r/K7 w - - 0 1", Color::White);
    node.alpha_beta(2, min_score(), max_score(), Color::White);
    let replies = node.child(0).child_count();
    assert_eq!(node.child_count(), 1);
    assert_eq!(node.size(), 2 + replies);
}

#[test]
fn a_short_game_from_the_start() {
    let mut position = Position::from_fen(START).unwrap();
    for (source, dest) in [(12, 28), (51, 35), (28, 35)] {
        position = position.play(Move { source, dest, promotion: None }).expect("a legal move");
    }
    assert_eq!(position.fen(), "rnbqkbnr/ppp1pppp/8/3P4/8/8/PPPP1PPP/RNBQKBNR b KQkq - 0 1");
    assert_eq!(position.legal_moves().len(), 28);
    assert_eq!(score_for(&position, Color::Black), 28 - 1);
    assert_eq!(score_for(&position, Color::White), 1);

    let depth = 2;
    let board = chess::Board::from_str(&position.fen()).unwrap();
    let root = SearchNode::new(position, Color::Black);
    let (mv, kept) = best_move(root, depth, Color::Black).expect("a move");
    let mut best: Option<(Score, chess::ChessMove)> = None;
    for candidate in chess::MoveGen::new_legal(&board) {
        let score = plain_minimax(&board.make_move_new(candidate), depth, chess::Color::Black);
        if best.map_or(true, |(top, _)| score > top) {
            best = Some((score, candidate));
        }
    }
    let (score, expected) = best.unwrap();
    assert_eq!(mv.source, expected.get_source().to_int());
    assert_eq!(mv.dest, expected.get_dest().to_int());
    assert_eq!(kept.score(), score);
}

#[test]
fn a_deeper_search_agrees_with_plain_minimax() {
    for fen in ["8/8/8/8/8/1k6/7r/K7 w - - 0 1", "7k/5Q2/6K1/8/8/8/8/8 w - - 0 1"] {
        for side in [Color::White, Color::Black] {
            let mut node = node_for(fen, side);
            let found = node.alpha_beta(4, min_score(), max_score(), side);
            let board = chess::Board::from_str(fen).unwrap();
            assert_eq!(found.0, plain_minimax(&board, 4, side_of(side)), "{}", fen);
        }
    }
}

#[test]
fn a_narrow_window_bounds_the_score() {
    let board = chess::Board::from_str(SIX_PIECES).unwrap();
    let plain = plain_minimax(&board, 2, chess::Color::White);
    let mut node = node_for(SIX_PIECES, Color::White);
    let low = node.alpha_beta(2, plain + 5, plain + 10, Color::White).0;
    assert!(low <= plain + 5 && plain <= low);
    let mut node = node_for(SIX_PIECES, Color::White);
    let high = node.alpha_beta(2, plain - 10, plain - 5, Color::White).0;
    assert!(high >= plain - 5 && plain >= high);
    let mut node = node_for(SIX_PIECES, Color::White);
    assert_eq!(node.alpha_beta(2, plain - 1, plain + 1, Color::White).0, plain);
}
