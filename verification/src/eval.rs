//! Scores, and the static evaluation of a position.
//!
//! A score is seen from one side, the side the search plays for. The static
//! score of a position counts the moves that side can make and the material
//! of both sides; the two ends of the scale are kept for forced wins and
//! losses.

use vstd::prelude::*;
use crate::position::{
    color_at,
    legal_moves_of,
    piece_at,
    playable,
    Color,
    Move,
    Piece,
    Position,
    MAX_MOVES,
};

verus! {

/// The value of a position for the side the search plays for.
pub type Score = i64;

/// The score of a forced win.
pub const WIN: Score = 9_223_372_036_854_775_807;

/// The score of a forced loss. It is the negation of [`WIN`], so that either
/// end of the scale can be negated.
pub const LOSS: Score = -9_223_372_036_854_775_807;

/// The score of a forced loss, the lower end of the scale.
pub fn min_score() -> (score: Score)
    ensures
        score == LOSS,
        -score == WIN,
{
    LOSS
}

/// The score of a forced win, the upper end of the scale.
pub fn max_score() -> (score: Score)
    ensures
        score == WIN,
        -score == LOSS,
{
    WIN
}

/// What a piece is worth: pawn 1, knight and bishop 3, rook 5, queen 9, and
/// 200 for the king, far above all the rest together.
pub open spec fn piece_points(piece: Piece) -> int {
    match piece {
        Piece::Pawn => 1,
        Piece::Knight => 3,
        Piece::Bishop => 3,
        Piece::Rook => 5,
        Piece::Queen => 9,
        Piece::King => 200,
    }
}

/// What the piece on `square` adds to the material of `side`: its worth if it
/// is of that colour, nothing otherwise.
pub open spec fn square_points(text: Seq<char>, square: u8, side: Color) -> int {
    match (piece_at(text, square), color_at(text, square)) {
        (Some(piece), Some(color)) => if color == side {
            piece_points(piece)
        } else {
            0
        },
        _ => 0,
    }
}

/// The material of `side` on the squares below `upto`.
pub open spec fn material(text: Seq<char>, side: Color, upto: nat) -> int
    decreases upto,
{
    if upto == 0 {
        0
    } else {
        material(text, side, (upto - 1) as nat) + square_points(text, (upto - 1) as u8, side)
    }
}

/// Whether `mv` moves a piece of `side`.
pub open spec fn moves_own_piece(text: Seq<char>, mv: Move, side: Color) -> bool {
    color_at(text, mv.source) == Some(side)
}

/// How many of the first `upto` legal moves move a piece of `side`.
pub open spec fn mobility(text: Seq<char>, side: Color, upto: nat) -> int
    decreases upto,
{
    if upto == 0 {
        0
    } else {
        mobility(text, side, (upto - 1) as nat) + if moves_own_piece(
            text,
            legal_moves_of(text)[upto - 1],
            side,
        ) {
            1int
        } else {
            0int
        }
    }
}

/// The static score of a position for `side`: the legal moves of its own
/// pieces, plus its material, minus the material of the other side.
pub open spec fn static_score(text: Seq<char>, side: Color) -> int {
    mobility(text, side, legal_moves_of(text).len()) + material(text, side, 64) - material(
        text,
        side.other(),
        64,
    )
}

/// The material on a part of the board is never negative, and at most a king
/// on every square.
pub proof fn lemma_material_bounds(text: Seq<char>, side: Color, upto: nat)
    ensures
        0 <= material(text, side, upto) <= 200 * upto,
    decreases upto,
{
    if upto > 0 {
        lemma_material_bounds(text, side, (upto - 1) as nat);
    }
}

/// Among some legal moves, those of one side are at most all of them.
pub proof fn lemma_mobility_bounds(text: Seq<char>, side: Color, upto: nat)
    ensures
        0 <= mobility(text, side, upto) <= upto,
    decreases upto,
{
    if upto > 0 {
        lemma_mobility_bounds(text, side, (upto - 1) as nat);
    }
}

/// The static score of a position that can be played from lies well inside
/// the scale: all the material of one side and all the moves there can be
/// are far from a forced win or loss.
pub proof fn lemma_static_score_in_range(text: Seq<char>, side: Color)
    requires
        playable(text),
    ensures
        -12800 <= static_score(text, side) <= 12800 + MAX_MOVES,
        LOSS < static_score(text, side) < WIN,
{
    lemma_mobility_bounds(text, side, legal_moves_of(text).len());
    lemma_material_bounds(text, side, 64);
    lemma_material_bounds(text, side.other(), 64);
}

/// The same position has the same static score, whenever it is asked for.
pub proof fn lemma_static_score_deterministic(first: Seq<char>, second: Seq<char>, side: Color)
    requires
        first == second,
    ensures
        static_score(first, side) == static_score(second, side),
{
}

/// What a piece is worth.
pub fn points_for_piece(piece: Piece) -> (points: Score)
    ensures
        points == piece_points(piece),
{
    match piece {
        Piece::Pawn => 1,
        Piece::Knight | Piece::Bishop => 3,
        Piece::Rook => 5,
        Piece::Queen => 9,
        Piece::King => 200,
    }
}

/// The material of both sides, that of `side` counted up and that of the
/// other side counted down.
pub fn material_balance(position: &Position, side: Color) -> (balance: Score)
    ensures
        balance == material(position@, side, 64) - material(position@, side.other(), 64),
{
    let mut own: Score = 0;
    let mut theirs: Score = 0;
    let mut square: u8 = 0;
    while square < 64
        invariant
            0 <= square <= 64,
            own == material(position@, side, square as nat),
            theirs == material(position@, side.other(), square as nat),
        decreases 64 - square,
    {
        proof {
            lemma_material_bounds(position@, side, square as nat);
            lemma_material_bounds(position@, side.other(), square as nat);
        }
        let piece = position.piece_on(square);
        let color = position.color_on(square);
        match (piece, color) {
            (Some(piece), Some(color)) => {
                if color == side {
                    own += points_for_piece(piece);
                } else {
                    theirs += points_for_piece(piece);
                }
            },
            _ => {},
        }
        square += 1;
    }
    proof {
        lemma_material_bounds(position@, side, 64);
        lemma_material_bounds(position@, side.other(), 64);
    }
    own - theirs
}

/// Scores a position for `side` without looking ahead.
pub fn score_for(position: &Position, side: Color) -> (score: Score)
    ensures
        score == static_score(position@, side),
        -12800 <= score <= 12800 + MAX_MOVES,
{
    let moves = position.legal_moves();
    let mut count: Score = 0;
    let mut i: usize = 0;
    while i < moves.len()
        invariant
            0 <= i <= moves.len(),
            moves@ == legal_moves_of(position@),
            moves@.len() <= MAX_MOVES,
            forall|j: int| 0 <= j < moves@.len() ==> (#[trigger] moves@[j]).on_board(),
            count == mobility(position@, side, i as nat),
        decreases moves.len() - i,
    {
        proof {
            lemma_mobility_bounds(position@, side, i as nat);
        }
        let mv = moves[i];
        assert(mv.on_board());
        if position.color_on(mv.source) == Some(side) {
            count += 1;
        }
        i += 1;
    }
    proof {
        lemma_mobility_bounds(position@, side, moves@.len());
        lemma_material_bounds(position@, side, 64);
        lemma_material_bounds(position@, side.other(), 64);
    }
    count + material_balance(position, side)
}

} // verus!
