use chess_ai::ai::{AIState, MAX_DEPTH, REACH};
use chess_ai::eval::{max_score, min_score, score_for};
use chess_ai::position::{Color, Move, Position};
use chess_ai::root::{best_move, SearchError};
use chess_ai::tree::SearchNode;
use chess_ai::cache::path_from;

const START: &str = "rnbqkbnr/pppppppp/8/8/8/8/PPPPPPPP/RNBQKBNR w KQkq - 0 1";
const SIX_PIECES: &str = "4k3/4p3/8/8/8/8/4P3/R3K2R w KQ - 0 1";
const ONE_DEFENCE: &str = "8/1k3Pr1/8/3N2q1/8/8/7K/8 w - - 0 1";

fn position(fen: &str) -> Position {
    Position::from_fen(fen).expect("a legal position")
}

#[test]
fn a_new_node_is_fresh() {
    let node = SearchNode::new(position(START), Color::White);
    assert!(!node.is_expanded());
    assert_eq!(node.child_count(), 0);
    assert_eq!(node.score(), 20);
    assert_eq!(node.position().fen(), START);
}

#[test]
fn expanding_makes_one_child_for_each_move() {
    let mut node = SearchNode::new(position(START), Color::White);
    node.expand(Color::White);
    assert!(node.is_expanded());
    assert_eq!(node.child_count(), 20);
    let moves = node.position().legal_moves();
    for i in 0..20 {
        assert_eq!(node.child_move(i), moves[i]);
        let reached = node.position().play(moves[i]).unwrap();
        assert!(node.child(i).position().same_as(&reached));
        assert_eq!(node.child(i).score(), score_for(&reached, Color::White));
        assert!(!node.child(i).is_expanded());
    }
    node.expand(Color::White);
    assert_eq!(node.child_count(), 20);
}

#[test]
fn a_cutoff_leaves_the_other_children_alone() {
    let mut node = SearchNode::new(position(SIX_PIECES), Color::White);
    let found = node.alpha_beta(2, min_score(), min_score() + 1, Color::White);
    assert_eq!(found.1, Some(0));
    assert_eq!(node.child_count(), 27);
    assert!(node.child(0).is_expanded());
    assert_eq!(node.child(0).score(), found.0);
    for i in 1..27 {
        assert!(!node.child(i).is_expanded());
        assert_eq!(node.child(i).score(), score_for(node.child(i).position(), Color::White));
    }
}

#[test]
fn the_root_is_found_at_once() {
    let node = SearchNode::new(position(START), Color::White);
    let found = node.find(&position(START), 0, Color::White).expect("the root");
    assert_eq!(found.position().fen(), START);
    assert!(!found.is_expanded());
}

#[test]
fn a_reply_is_found_below_the_root() {
    let after_e4_e5 = "rnbqkbnr/pppp1ppp/8/4p3/4P3/8/PPPP1PPP/RNBQKBNR w KQkq - 0 1";
    let target = position(after_e4_e5);
    assert_eq!(path_from(&position(START), &target, 0), None);
    assert_eq!(path_from(&position(START), &target, 1), None);
    let path = path_from(&position(START), &target, 2).expect("two plies");
    assert_eq!(path.len(), 2);
    let node = SearchNode::new(position(START), Color::White);
    assert_eq!(node.path_to(&target, 2), Some(path.clone()));
    let found = node.find(&target, 2, Color::White).expect("within reach");
    assert_eq!(found.position().fen(), after_e4_e5);
    let first = position(START).legal_moves()[path[0]];
    assert_eq!(first, Move { source: 12, dest: 28, promotion: None });
}

#[test]
fn a_position_out_of_reach_is_not_found() {
    let node = SearchNode::new(position(START), Color::White);
    assert!(node.find(&position(SIX_PIECES), 2, Color::White).is_none());
    let node = SearchNode::new(position(START), Color::White);
    let after_e4_e5 = position("rnbqkbnr/pppp1ppp/8/4p3/4P3/8/PPPP1PPP/RNBQKBNR w KQkq - 0 1");
    assert!(node.find(&after_e4_e5, 1, Color::White).is_none());
}

#[test]
fn a_kept_subtree_scores_like_a_fresh_one() {
    let depth = 2;
    let root = SearchNode::new(position(SIX_PIECES), Color::White);
    let (_, kept) = best_move(root, depth, Color::White).expect("a move");
    assert!(kept.is_expanded());
    let replies = kept.position().legal_moves();
    for reply in replies {
        let reached = kept.position().play(reply).unwrap();
        let (_, again) = best_move(
            SearchNode::new(position(SIX_PIECES), Color::White),
            depth,
            Color::White,
        )
        .unwrap();
        let mut cached = again.find(&reached, 1, Color::White).expect("a child that was searched");
        assert!(cached.position().same_as(&reached));
        let mut fresh = SearchNode::new(reached, Color::White);
        let from_cache = cached.alpha_beta(depth, min_score(), max_score(), Color::White);
        let from_scratch = fresh.alpha_beta(depth, min_score(), max_score(), Color::White);
        assert_eq!(from_cache, from_scratch);
    }
}

#[test]
fn the_only_defence_is_played() {
    for depth in 1..3 {
        let root = SearchNode::new(position(ONE_DEFENCE), Color::White);
        let (mv, _) = best_move(root, depth, Color::White).expect("a move");
        assert_eq!(mv, Move { source: 35, dest: 29, promotion: None });
    }
}

#[test]
fn every_other_move_allows_mate() {
    let start = position(ONE_DEFENCE);
    let defence = Move { source: 35, dest: 29, promotion: None };
    let moves = start.legal_moves();
    assert_eq!(moves.len(), 14);
    for mv in moves {
        let mut node = SearchNode::new(start.play(mv).unwrap(), Color::White);
        let found = node.alpha_beta(1, min_score(), max_score(), Color::White);
        assert_eq!(found.0 == min_score(), mv != defence);
    }
}

#[test]
fn the_same_search_gives_the_same_move() {
    let mut seen = Vec::new();
    for _ in 0..5 {
        let root = SearchNode::new(position(SIX_PIECES), Color::White);
        let (mv, kept) = best_move(root, 2, Color::White).unwrap();
        seen.push((mv, kept.score()));
    }
    for pair in &seen {
        assert_eq!(*pair, seen[0]);
    }
}

#[test]
fn the_engine_plays_turn_after_turn() {
    let mut state = AIState::new(1);
    let mut board = position(SIX_PIECES);
    for _ in 0..3 {
        let mv = state.best_move(&board, Color::White).expect("a move for white");
        board = board.play(mv).expect("a legal move");
        assert!(state.root().unwrap().position().same_as(&board));
        let reply = board.legal_moves()[0];
        board = board.play(reply).expect("a legal reply");
    }
}

#[test]
fn a_seeded_state_starts_from_its_position() {
    let mut state = AIState::seed(position(SIX_PIECES), Color::White, 1);
    assert_eq!(state.root().unwrap().position().fen(), SIX_PIECES);
    let mv = state.best_move(&position(SIX_PIECES), Color::White).unwrap();
    let mut fresh = AIState::new(1);
    assert_eq!(fresh.best_move(&position(SIX_PIECES), Color::White), Ok(mv));
}

#[test]
fn an_unknown_position_is_an_error() {
    let mut state = AIState::seed(position(START), Color::White, 1);
    assert_eq!(state.best_move(&position(SIX_PIECES), Color::White), Err(SearchError::NotInCache));
    assert!(state.root().is_none());
}

#[test]
fn the_waiting_side_gets_no_move() {
    let mut state = AIState::new(1);
    assert_eq!(state.best_move(&position(START), Color::Black), Err(SearchError::NotToMove));
    assert!(state.root().is_none());
}

#[test]
fn a_finished_game_gets_no_move() {
    let mut state = AIState::new(1);
    let mated = position("rnb1kbnr/pppp1ppp/8/4p3/6Pq/5P2/PPPPP2P/RNBQKBNR w KQkq - 0 1");
    assert_eq!(state.best_move(&mated, Color::White), Err(SearchError::NoMove));
}

#[test]
fn the_default_state_searches_six_plies() {
    let state = AIState::default();
    assert!(state.root().is_none());
    assert_eq!(MAX_DEPTH, 6);
    assert_eq!(REACH, 2);
}

#[test]
fn the_state_counts_what_it_keeps() {
    let mut state = AIState::new(1);
    assert_eq!(state.known_board_states(), 0);
    let state_seeded = AIState::seed(position(SIX_PIECES), Color::White, 1);
    assert_eq!(state_seeded.known_board_states(), 1);
    state.best_move(&position(SIX_PIECES), Color::White).unwrap();
    let kept = state.root().unwrap();
    assert_eq!(state.known_board_states(), 1 + kept.child_count());
}
