use chess_ai::position::{Color, Move, Piece, Position, Status};

const START: &str = "rnbqkbnr/pppppppp/8/8/8/8/PPPPPPPP/RNBQKBNR w KQkq - 0 1";

#[test]
fn start_position_is_accepted() {
    let position = Position::from_fen(START).expect("the starting position");
    assert_eq!(position.fen(), START);
    assert_eq!(position.side_to_move(), Color::White);
    assert_eq!(position.status(), Status::Ongoing);
    assert_eq!(position.legal_moves().len(), 20);
}

#[test]
fn start_position_squares() {
    let position = Position::from_fen(START).unwrap();
    assert_eq!(position.piece_on(0), Some(Piece::Rook));
    assert_eq!(position.color_on(0), Some(Color::White));
    assert_eq!(position.piece_on(4), Some(Piece::King));
    assert_eq!(position.piece_on(59), Some(Piece::Queen));
    assert_eq!(position.color_on(59), Some(Color::Black));
    assert_eq!(position.piece_on(27), None);
    assert_eq!(position.color_on(27), None);
    assert_eq!(position.attacker(), None);
}

#[test]
fn playing_a_move_changes_the_position() {
    let position = Position::from_fen(START).unwrap();
    let e2e4 = Move { source: 12, dest: 28, promotion: None };
    let next = position.play(e2e4).expect("a legal move");
    assert_eq!(next.fen(), "rnbqkbnr/pppppppp/8/8/4P3/8/PPPP1PPP/RNBQKBNR b KQkq - 0 1");
    assert_eq!(next.side_to_move(), Color::Black);
    assert!(!next.same_as(&position));
}

#[test]
fn an_illegal_move_is_refused() {
    let position = Position::from_fen(START).unwrap();
    let e2e5 = Move { source: 12, dest: 36, promotion: None };
    assert!(position.play(e2e5).is_none());
}
