//! The board that a player plays on against the engine.
//!
//! The board is drawn as eight by eight tiles round a centre point. This
//! module maps a point to the square it lies on and a square to the place of
//! its tile, and it decides what a click on a square does: mark the square,
//! or play the move from the marked square to it and let the engine reply.

use vstd::prelude::*;
use crate::ai::{turn, AIState};
use crate::position::{
    legal_moves_of,
    mover_of,
    playable,
    position_after,
    status_of,
    Color,
    Move,
    Piece,
    Position,
    Status,
};
use crate::root::SearchError;
use crate::tree::Tree;

verus! {

/// The side of a tile, in pixels.
pub const TILE_SIZE: u8 = 32;

/// The side of the board, in pixels.
pub const BOARD_SIZE: i32 = 256;

/// How many sprites the board is drawn with: two tiles and twelve pieces.
pub const SPRITES: usize = 14;

/// Whether the point `(x, y)`, taken from the centre of the board, lies on
/// the board: the left and upper edges belong to it, the right and lower
/// edges do not.
pub open spec fn inside_board(x: int, y: int) -> bool {
    -128 <= x < 128 && -128 <= y < 128
}

/// The square under the point `(x, y)`, taken from the centre of the board
/// with `y` growing upwards: files run from left to right, ranks from the
/// bottom up.
pub open spec fn tile_of(x: int, y: int) -> Option<int> {
    if inside_board(x, y) {
        Some(((y + 128) / 32) * 8 + (x + 128) / 32)
    } else {
        None
    }
}

/// The upper left corner of the tile of `square` on the screen, where the
/// centre of the board is at `(center_x, center_y)` and `y` grows downwards.
pub open spec fn corner_of(square: int, center_x: int, center_y: int) -> (int, int) {
    ((square % 8) * 32 + center_x - 128, center_y + 96 - (square / 8) * 32)
}

/// The middle of the tile of a square lies on that square: mapping a square
/// to its tile on the screen and the middle of the tile back to a square
/// gives the square again.
pub proof fn lemma_tile_round_trip(square: int, center_x: int, center_y: int)
    requires
        0 <= square < 64,
    ensures
        tile_of(
            corner_of(square, center_x, center_y).0 + 16 - center_x,
            center_y - (corner_of(square, center_x, center_y).1 + 16),
        ) == Some(square),
{
}

/// The number of the sprite for the tile of `square`: 0 for the squares where
/// rank and file add up to an even number, 1 for the others.
pub open spec fn tile_sprite_of(square: int) -> int {
    if (square / 8 + square % 8) % 2 == 0 {
        0
    } else {
        1
    }
}

/// The number of the sprite for the tile of `square`.
pub fn tile_sprite(square: u8) -> (sprite: usize)
    ensures
        sprite == tile_sprite_of(square as int),
{
    if (square / 8 + square % 8) % 2 == 0 {
        0
    } else {
        1
    }
}

/// The number of the sprite for a piece: the sheet holds, after the two
/// tiles, the pieces in the order pawn, rook, knight, bishop, queen, king,
/// each first in black and then in white.
pub open spec fn piece_sprite_of(piece: Piece, color: Color) -> int {
    2 + 2 * match piece {
        Piece::Pawn => 0int,
        Piece::Rook => 1int,
        Piece::Knight => 2int,
        Piece::Bishop => 3int,
        Piece::Queen => 4int,
        Piece::King => 5int,
    } + match color {
        Color::Black => 0int,
        Color::White => 1int,
    }
}

/// The number of the sprite for a piece.
pub fn piece_sprite(piece: Piece, color: Color) -> (sprite: usize)
    ensures
        sprite == piece_sprite_of(piece, color),
        2 <= sprite < SPRITES,
{
    match (piece, color) {
        (Piece::Pawn, Color::Black) => 2,
        (Piece::Pawn, Color::White) => 3,
        (Piece::Rook, Color::Black) => 4,
        (Piece::Rook, Color::White) => 5,
        (Piece::Knight, Color::Black) => 6,
        (Piece::Knight, Color::White) => 7,
        (Piece::Bishop, Color::Black) => 8,
        (Piece::Bishop, Color::White) => 9,
        (Piece::Queen, Color::Black) => 10,
        (Piece::Queen, Color::White) => 11,
        (Piece::King, Color::Black) => 12,
        (Piece::King, Color::White) => 13,
    }
}

/// How a square stands out when the board is drawn.
#[derive(Clone, Copy, Debug, PartialEq, Eq, Structural)]
pub enum Highlight {
    /// The square is the marked one.
    Selected,
    /// One of the given moves ends on the square.
    Target,
}

/// How `square` stands out while `marked` is marked and `moves` are the moves
/// from the marked square: as the marked square itself, else as the end of
/// one of the moves, else not at all.
pub open spec fn highlight_of(marked: Option<u8>, moves: Seq<Move>, square: u8) -> Option<
    Highlight,
> {
    if marked == Some(square) {
        Some(Highlight::Selected)
    } else if exists|i: int| 0 <= i < moves.len() && (#[trigger] moves[i]).dest == square {
        Some(Highlight::Target)
    } else {
        None
    }
}

/// How `square` stands out while `marked` is marked and `moves` are the moves
/// from the marked square.
pub fn highlight(marked: Option<u8>, moves: &Vec<Move>, square: u8) -> (shown: Option<Highlight>)
    ensures
        shown == highlight_of(marked, moves@, square),
{
    if marked == Some(square) {
        return Some(Highlight::Selected);
    }
    let mut i: usize = 0;
    while i < moves.len()
        invariant
            0 <= i <= moves.len(),
            marked != Some(square),
            forall|j: int| 0 <= j < i ==> (#[trigger] moves@[j]).dest != square,
        decreases moves.len() - i,
    {
        if moves[i].dest == square {
            assert(moves@[i as int].dest == square);
            return Some(Highlight::Target);
        }
        i += 1;
    }
    None
}

/// The first legal move from the square `from` to the square `to` in the
/// position `text`, among the moves from number `start` on.
pub open spec fn first_move(text: Seq<char>, from: u8, to: u8, start: nat) -> Option<Move>
    decreases legal_moves_of(text).len() - start,
{
    if start >= legal_moves_of(text).len() {
        None
    } else {
        let mv = legal_moves_of(text)[start as int];
        if mv.source == from && mv.dest == to {
            Some(mv)
        } else {
            first_move(text, from, to, (start + 1) as nat)
        }
    }
}

/// The move that a click on `square` plays in the position `text` while
/// `marked` is marked: the first legal move from the marked square to the
/// clicked one, if there is one and the position it leads to can be played
/// from.
pub open spec fn picked(text: Seq<char>, marked: Option<u8>, square: Option<u8>) -> Option<Move> {
    match (marked, square) {
        (Some(from), Some(to)) => match first_move(text, from, to, 0) {
            Some(mv) => if playable(position_after(text, mv)) {
                Some(mv)
            } else {
                None
            },
            None => None,
        },
        _ => None,
    }
}

/// Of the first `upto` legal moves in the position `text`, those that start
/// on the square `source`.
pub open spec fn moves_from_upto(text: Seq<char>, source: u8, upto: nat) -> Seq<Move>
    decreases upto,
{
    if upto == 0 {
        Seq::empty()
    } else {
        let before = moves_from_upto(text, source, (upto - 1) as nat);
        let mv = legal_moves_of(text)[upto - 1];
        if mv.source == source {
            before.push(mv)
        } else {
            before
        }
    }
}

/// What a click did.
#[derive(Clone, Copy, Debug, PartialEq, Eq, Structural)]
pub enum Selection {
    /// The click marked a square, or took the mark away.
    Marked,
    /// The click played a move, and the engine replied to it.
    Played { played: Move, reply: Move },
    /// The click played a move, and the engine found no reply.
    Unanswered { played: Move, error: SearchError },
}

/// A game between a player and the engine.
pub struct ChessBoard {
    board: Position,
    selected_square: Option<u8>,
    ai_state: AIState,
    player_side: Color,
}

impl ChessBoard {
    /// The position on the board.
    pub closed spec fn position(&self) -> Seq<char> {
        self.board@
    }

    /// The square that is marked.
    pub closed spec fn marked(&self) -> Option<u8> {
        self.selected_square
    }

    /// The side of the player.
    pub closed spec fn player(&self) -> Color {
        self.player_side
    }

    /// The tree that the engine keeps.
    pub closed spec fn kept(&self) -> Option<Tree> {
        self.ai_state.kept()
    }

    /// How deep the engine searches.
    pub closed spec fn depth(&self) -> nat {
        self.ai_state.depth()
    }

    /// A game that starts from `board`, with no square marked and an engine
    /// that has kept nothing and searches `depth` plies deep.
    pub fn new(board: Position, player_side: Color, depth: usize) -> (game: ChessBoard)
        ensures
            game.position() == board@,
            game.marked().is_none(),
            game.player() == player_side,
            game.kept().is_none(),
            game.depth() == depth,
    {
        ChessBoard { board, selected_square: None, ai_state: AIState::new(depth), player_side }
    }

    /// The side of the board, in pixels: eight tiles.
    pub fn board_size() -> (size: i32)
        ensures
            size == BOARD_SIZE,
            size == 8 * TILE_SIZE,
    {
        8 * (TILE_SIZE as i32)
    }

    /// Checks if the pixel position (relative to the center of the board) is
    /// inside the board.
    pub fn contains_from_center(x: i32, y: i32) -> (inside: bool)
        ensures
            inside == inside_board(x as int, y as int),
    {
        let half = Self::board_size() / 2;
        -half <= x && x < half && -half <= y && y < half
    }

    /// Returns the square corresponding to the given point (relative from the
    /// center).
    pub fn tile_coord(x: i32, y: i32) -> (square: Option<u8>)
        ensures
            square.is_some() == inside_board(x as int, y as int),
            square matches Some(s) ==> tile_of(x as int, y as int) == Some(s as int) && s < 64,
    {
        if !Self::contains_from_center(x, y) {
            None
        } else {
            let half = Self::board_size() / 2;
            let tile_x = (x + half) / (TILE_SIZE as i32);
            let tile_y = (y + half) / (TILE_SIZE as i32);
            Some((tile_y * 8 + tile_x) as u8)
        }
    }

    /// The upper left corner of the tile of `square` on the screen, where the
    /// centre of the board is drawn at `(center_x, center_y)`. The centre must
    /// leave room for the board within the numbers that a coordinate can hold.
    pub fn draw_position(square: u8, center_x: i32, center_y: i32) -> (corner: (i32, i32))
        requires
            square < 64,
            i32::MIN + 128 <= center_x <= i32::MAX - 128,
            i32::MIN + 128 <= center_y <= i32::MAX - 128,
        ensures
            (corner.0 as int, corner.1 as int) == corner_of(
                square as int,
                center_x as int,
                center_y as int,
            ),
    {
        let tile_size = TILE_SIZE as i32;
        let file = (square % 8) as i32;
        let rank = (square / 8) as i32;
        let half = Self::board_size() / 2;
        let pixel_x = file * tile_size + (center_x - half);
        let pixel_y = center_y + (half - tile_size) - rank * tile_size;
        (pixel_x, pixel_y)
    }

    /// The position on the board.
    pub fn board(&self) -> (board: &Position)
        ensures
            board@ == self.position(),
    {
        &self.board
    }

    /// The square that is marked.
    pub fn selected_square(&self) -> (square: Option<u8>)
        ensures
            square == self.marked(),
    {
        self.selected_square
    }

    /// The side of the player.
    pub fn player_side(&self) -> (side: Color)
        ensures
            side == self.player(),
    {
        self.player_side
    }

    /// Whether play goes on.
    pub fn is_ongoing(&self) -> (ongoing: bool)
        ensures
            ongoing == (status_of(self.position()) == Status::Ongoing),
    {
        self.board.status() == Status::Ongoing
    }

    /// Whether the game has ended in a mate with the player to move.
    pub fn is_player_winner(&self) -> (mate: bool)
        ensures
            mate == (status_of(self.position()) == Status::Checkmate && mover_of(self.position())
                == self.player()),
    {
        self.board.status() == Status::Checkmate && self.board.side_to_move() == self.player_side
    }

    /// Lists all legal moves from the given source.
    pub fn moves_from(&self, source: u8) -> (moves: Vec<Move>)
        ensures
            moves@ == moves_from_upto(
                self.position(),
                source,
                legal_moves_of(self.position()).len(),
            ),
    {
        let all = self.board.legal_moves();
        let mut moves: Vec<Move> = Vec::new();
        let mut i: usize = 0;
        while i < all.len()
            invariant
                0 <= i <= all.len(),
                all@ == legal_moves_of(self.board@),
                moves@ == moves_from_upto(self.board@, source, i as nat),
            decreases all.len() - i,
        {
            if all[i].source == source {
                moves.push(all[i]);
            }
            i += 1;
        }
        moves
    }

    /// Handles a click on `square`, or beside the board where it is `None`.
    ///
    /// Where a square is marked and a legal move leads from it to the
    /// clicked square, that move is played, the mark is taken away and the
    /// engine replies for the other side; if the engine finds no reply, the
    /// position stays as the move left it. Any other click marks what was
    /// clicked and leaves the position alone.
    pub fn select(&mut self, square: Option<u8>) -> (done: Selection)
        ensures
            final(self).player() == old(self).player(),
            final(self).depth() == old(self).depth(),
            match picked(old(self).position(), old(self).marked(), square) {
                None => {
                    &&& done == Selection::Marked
                    &&& final(self).marked() == square
                    &&& final(self).position() == old(self).position()
                    &&& final(self).kept() == old(self).kept()
                },
                Some(mv) => {
                    let reached = position_after(old(self).position(), mv);
                    let answer = turn(
                        old(self).kept(),
                        old(self).depth(),
                        reached,
                        old(self).player().other(),
                    );
                    &&& final(self).marked().is_none()
                    &&& final(self).kept() == answer.1
                    &&& match answer.0 {
                        Ok(reply) => {
                            &&& done == (Selection::Played { played: mv, reply })
                            &&& answer.1.is_some()
                            &&& final(self).position() == answer.1.unwrap().position
                        },
                        Err(error) => {
                            &&& done == (Selection::Unanswered { played: mv, error })
                            &&& final(self).position() == reached
                        },
                    }
                },
            },
    {
        match (self.selected_square, square) {
            (Some(from), Some(to)) => {
                let moves = self.board.legal_moves();
                let mut i: usize = 0;
                while i < moves.len()
                    invariant
                        0 <= i <= moves.len(),
                        *self == *old(self),
                        self.selected_square == Some(from),
                        square == Some(to),
                        moves@ == legal_moves_of(self.board@),
                        first_move(self.board@, from, to, 0) == first_move(
                            self.board@,
                            from,
                            to,
                            i as nat,
                        ),
                    decreases moves.len() - i,
                {
                    let mv = moves[i];
                    if mv.source == from && mv.dest == to {
                        assert(moves@[i as int] == mv);
                        match self.board.after(mv) {
                            Some(reached) => {
                                self.selected_square = None;
                                let other = self.player_side.opponent();
                                let answer = self.ai_state.best_move(&reached, other);
                                match answer {
                                    Ok(reply) => {
                                        match self.ai_state.root() {
                                            Some(node) => {
                                                self.board = node.position().clone();
                                            },
                                            None => {},
                                        }
                                        return Selection::Played { played: mv, reply };
                                    },
                                    Err(error) => {
                                        self.board = reached;
                                        return Selection::Unanswered { played: mv, error };
                                    },
                                }
                            },
                            None => {
                                self.selected_square = square;
                                return Selection::Marked;
                            },
                        }
                    }
                    i += 1;
                }
            },
            _ => {},
        }
        self.selected_square = square;
        Selection::Marked
    }
}

} // verus!
