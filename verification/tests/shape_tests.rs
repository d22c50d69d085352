use chess_ai::fen::{char_squares, is_well_shaped, placement_end};
use chess_ai::position::Position;
use chess_ai::sprite::{check_mask, grid_origins, MaskError};
use chess_ai::twc::{cross_over, establish, TryRecvResult};
use chess_ai::utils::map_tuple;
use std::sync::mpsc::TryRecvError;

#[test]
fn the_start_is_well_shaped() {
    assert!(is_well_shaped("rnbqkbnr/pppppppp/8/8/8/8/PPPPPPPP/RNBQKBNR w KQkq - 0 1"));
    assert!(is_well_shaped("4k3/8/8/8/8/8/8/4K3"));
}

#[test]
fn a_board_needs_both_kings() {
    assert!(!is_well_shaped("8/8/8/8/8/8/8/8 w - - 0 1"));
    assert!(!is_well_shaped("4k3/8/8/8/8/8/8/8 w - - 0 1"));
    assert!(!is_well_shaped("8/8/8/8/8/8/8/4K3 w - - 0 1"));
    assert!(!is_well_shaped("4k3/8/8/8/8/8/8/3KK3 w - - 0 1"));
    assert!(Position::from_fen("8/8/8/8/8/8/8/8 w - - 0 1").is_none());
}

#[test]
fn a_board_has_eight_ranks_of_eight() {
    assert!(!is_well_shaped("4k3/8/8/8/8/8/4K3 w - - 0 1"));
    assert!(!is_well_shaped("4k3/8/8/8/8/8/8/8/4K3 w - - 0 1"));
    assert!(!is_well_shaped("4k4/8/8/8/8/8/8/4K3 w - - 0 1"));
    assert!(!is_well_shaped("4k2/8/8/8/8/8/8/4K3 w - - 0 1"));
    assert!(!is_well_shaped("4k3/71/8/8/8/8/7/4K3 w - - 0 1"));
    assert!(!is_well_shaped("4k3/9/8/8/8/8/8/4K3 w - - 0 1"));
    assert!(!is_well_shaped("4k3/x7/8/8/8/8/8/4K3 w - - 0 1"));
    assert!(!is_well_shaped(""));
}

#[test]
fn a_side_has_at_most_sixteen_pieces() {
    assert!(is_well_shaped("4k3/8/8/8/8/8/NNNNNNNN/NNNKNNNN w - - 0 1"));
    assert!(!is_well_shaped("4k3/8/8/8/8/7N/NNNNNNNN/NNNKNNNN w - - 0 1"));
    assert!(!is_well_shaped("nnnknnnn/nnnnnnnn/n7/8/8/8/8/4K3 w - - 0 1"));
}

#[test]
fn the_placement_ends_at_the_first_blank() {
    assert_eq!(placement_end("8/8 w"), 3);
    assert_eq!(placement_end("8/8"), 3);
    assert_eq!(placement_end(" 8"), 0);
    assert_eq!(placement_end(""), 0);
}

#[test]
fn letters_and_digits_cover_squares() {
    assert_eq!(char_squares('1'), 1);
    assert_eq!(char_squares('8'), 8);
    assert_eq!(char_squares('K'), 1);
    assert_eq!(char_squares('p'), 1);
    assert_eq!(char_squares('9'), 0);
    assert_eq!(char_squares('0'), 0);
    assert_eq!(char_squares('/'), 0);
    assert_eq!(char_squares('x'), 0);
}

#[test]
fn a_well_shaped_text_may_still_be_refused() {
    assert!(is_well_shaped("4k3/8/8/8/8/8/8/3Kq3 b - - 0 1"));
    assert!(Position::from_fen("4k3/8/8/8/8/8/8/3Kq3 b - - 0 1").is_none());
    assert!(Position::from_fen("4k3/8/8/8/8/8/8/4K3").is_none());
    assert!(Position::from_fen("4k3/8/8/8/8/8/8/4K3 x - - 0 1").is_none());
}

#[test]
fn both_parts_of_a_pair_are_mapped() {
    assert_eq!(map_tuple((2, 5), |x: i32| x * 10), (20, 50));
    assert_eq!(map_tuple(("a", "bcd"), |s: &str| s.len()), (1, 3));
}

#[test]
fn what_one_end_sends_the_other_receives() {
    let (left, right) = establish::<u32, String>();
    assert!(left.send(7).is_ok());
    assert!(right.send("seven".to_string()).is_ok());
    assert_eq!(right.recv(), Some(7));
    assert_eq!(left.recv(), Some("seven".to_string()));
}

#[test]
fn nothing_waiting_is_empty() {
    let (left, right) = establish::<u32, u32>();
    assert!(matches!(left.try_recv(), TryRecvResult::Empty));
    assert!(right.send(3).is_ok());
    assert!(matches!(left.try_recv(), TryRecvResult::Received(3)));
    assert!(matches!(left.try_recv(), TryRecvResult::Empty));
}

#[test]
fn a_dropped_end_is_noticed() {
    let (left, right) = establish::<u32, u32>();
    assert!(right.send(1).is_ok());
    drop(right);
    assert!(matches!(left.try_recv(), TryRecvResult::Received(1)));
    assert!(matches!(left.try_recv(), TryRecvResult::Disconnected));
    assert_eq!(left.recv(), None);
    assert_eq!(left.send(9), Err(9));
}

#[test]
fn a_sheet_is_cut_row_by_row() {
    assert_eq!(
        grid_origins(64, 64, 32),
        vec![(0, 0), (32, 0), (0, 32), (32, 32)]
    );
    assert_eq!(grid_origins(65, 32, 32), vec![(0, 0), (32, 0), (64, 0)]);
    assert_eq!(grid_origins(10, 70, 32), vec![(0, 0), (0, 32), (0, 64)]);
    assert_eq!(grid_origins(0, 64, 32), vec![]);
    assert_eq!(grid_origins(64, 0, 32), vec![]);
    assert_eq!(grid_origins(448, 32, 32).len(), 14);
    assert_eq!(grid_origins(u32::MAX, 1, u32::MAX), vec![(0, 0)]);
}

#[test]
fn a_mask_must_touch_its_sheet() {
    assert_eq!(check_mask(0, 0, 32, 32, 64, 64), Ok(()));
    assert_eq!(check_mask(64, 64, 96, 96, 64, 64), Ok(()));
    assert_eq!(check_mask(-40, 0, 0, 32, 64, 64), Err(MaskError::TooFarLeft));
    assert_eq!(check_mask(0, -40, 32, 0, 64, 64), Err(MaskError::TooFarUp));
    assert_eq!(check_mask(65, 0, 97, 32, 64, 64), Err(MaskError::TooFarRight));
    assert_eq!(check_mask(0, 65, 32, 97, 64, 64), Err(MaskError::TooFarDown));
    assert_eq!(check_mask(-40, -40, 0, 0, 64, 64), Err(MaskError::TooFarLeft));
    assert_eq!(check_mask(65, -40, 97, 0, 64, 64), Err(MaskError::TooFarUp));
}

#[test]
fn a_mask_error_says_what_is_wrong() {
    assert_eq!(MaskError::TooFarLeft.message(), "Mask is too far left");
    assert_eq!(MaskError::TooFarUp.message(), "Mask is too far up");
    assert_eq!(MaskError::TooFarRight.message(), "Mask is too far right");
    assert_eq!(MaskError::TooFarDown.message(), "Mask is too far down");
}

#[test]
fn an_answer_of_the_channel_is_told_apart() {
    assert!(matches!(TryRecvResult::from(Ok::<u8, TryRecvError>(4)), TryRecvResult::Received(4)));
    assert!(matches!(
        TryRecvResult::<u8>::from(Err(TryRecvError::Empty)),
        TryRecvResult::Empty
    ));
    assert!(matches!(
        TryRecvResult::<u8>::from(Err(TryRecvError::Disconnected)),
        TryRecvResult::Disconnected
    ));
}

#[test]
fn two_channels_are_crossed_over() {
    let (first_in, first_out) = std::sync::mpsc::channel::<u8>();
    let (second_in, second_out) = std::sync::mpsc::channel::<char>();
    let probe_first = first_in.clone();
    let probe_second = second_in.clone();
    let (left, right) = cross_over((first_in, first_out), (second_in, second_out));
    assert!(probe_first.send(1).is_ok());
    assert!(probe_second.send('a').is_ok());
    assert_eq!(right.recv(), Some(1));
    assert_eq!(left.recv(), Some('a'));
    assert!(left.send(2).is_ok());
    assert!(right.send('b').is_ok());
    assert_eq!(right.recv(), Some(2));
    assert_eq!(left.recv(), Some('b'));
}

#[test]
fn a_value_that_cannot_be_sent_comes_back() {
    let (left, right) = establish::<String, u8>();
    drop(right);
    assert_eq!(left.send("kept".to_string()), Err("kept".to_string()));
}
