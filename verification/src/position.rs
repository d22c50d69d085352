//! Positions, moves and the rules of the game.
//!
//! The rules of chess are not written here: they come from the `chess` crate.
//! A [`Position`] carries the text of a board in Forsyth-Edwards notation, and
//! every question about it (which moves are legal, what a move leads to,
//! whether the game is over) is put to that crate. Each call reads the text
//! afresh, so what it answers depends on the text alone; the answer is given
//! a name in specifications, so that the contracts of the search can speak of
//! it. The functions at the end of this file make the calls, and they are the
//! only ones in this module that are taken on trust.

use vstd::prelude::*;
use crate::fen::{is_well_shaped, well_shaped};
use std::str::FromStr;

verus! {

/// One of the two sides.
#[derive(Clone, Copy, Debug, PartialEq, Eq, Structural)]
pub enum Color {
    White,
    Black,
}

impl Color {
    /// The opposing side.
    pub open spec fn other(self) -> Color {
        match self {
            Color::White => Color::Black,
            Color::Black => Color::White,
        }
    }

    /// The opposing side.
    pub fn opponent(self) -> (c: Color)
        ensures
            c == self.other(),
    {
        match self {
            Color::White => Color::Black,
            Color::Black => Color::White,
        }
    }
}

/// The six kinds of chess piece.
#[derive(Clone, Copy, Debug, PartialEq, Eq, Structural)]
pub enum Piece {
    Pawn,
    Knight,
    Bishop,
    Rook,
    Queen,
    King,
}

/// Whether play goes on in a position, and how it ended if not.
#[derive(Clone, Copy, Debug, PartialEq, Eq, Structural)]
pub enum Status {
    Ongoing,
    Stalemate,
    Checkmate,
}

/// A move: the square a piece leaves, the square it reaches, and what a pawn
/// becomes on the last rank. Squares are numbered from 0 (a1) to 63 (h8), rank
/// by rank.
#[derive(Clone, Copy, Debug, PartialEq, Eq, Structural)]
pub struct Move {
    pub source: u8,
    pub dest: u8,
    pub promotion: Option<Piece>,
}

impl Move {
    /// Both squares lie on the board.
    pub open spec fn on_board(self) -> bool {
        self.source < 64 && self.dest < 64
    }
}

/// Whether the rules engine reads `text` as a legal board.
pub uninterp spec fn engine_accepts(text: Seq<char>) -> bool;

/// The legal moves in the position `text`, in the order the rules engine
/// generates them.
pub uninterp spec fn legal_moves_of(text: Seq<char>) -> Seq<Move>;

/// The text of the position that `mv` leads to from `text`, as the rules engine
/// writes it.
pub uninterp spec fn position_after(text: Seq<char>, mv: Move) -> Seq<char>;

/// How the game stands in the position `text`.
pub uninterp spec fn status_of(text: Seq<char>) -> Status;

/// The side that is to move in the position `text`.
pub uninterp spec fn mover_of(text: Seq<char>) -> Color;

/// The kind of the piece on `square` in the position `text`.
pub uninterp spec fn piece_at(text: Seq<char>, square: u8) -> Option<Piece>;

/// The colour of the piece on `square` in the position `text`.
pub uninterp spec fn color_at(text: Seq<char>, square: u8) -> Option<Color>;

/// The lowest square that holds a piece giving check in the position `text`;
/// 64 where no piece gives check.
pub uninterp spec fn checking_square_of(text: Seq<char>) -> u8;

/// The most moves the rules engine ever generates for one position: it keeps
/// at most 18 moving pieces, each with at most 64 destinations, each of those
/// with at most 4 promotions.
pub const MAX_MOVES: usize = 4608;

/// The side that gives check in the position `text`, if any: the colour of
/// the piece on the checking square.
pub open spec fn attacker_of(text: Seq<char>) -> Option<Color> {
    if checking_square_of(text) < 64 {
        color_at(text, checking_square_of(text))
    } else {
        None
    }
}

/// A text that the rules engine can be asked about: it has the shape of a
/// board, and the engine accepts it.
pub open spec fn readable(text: Seq<char>) -> bool {
    well_shaped(text) && engine_accepts(text)
}

/// A text that can be played from: the rules engine can be asked about it,
/// and its legal moves are no more than `MAX_MOVES` and stay on the board.
pub open spec fn playable(text: Seq<char>) -> bool {
    &&& readable(text)
    &&& legal_moves_of(text).len() <= MAX_MOVES
    &&& forall|i: int|
        0 <= i < legal_moves_of(text).len() ==> (#[trigger] legal_moves_of(text)[i]).on_board()
}

/// A position of the game: a text that can be played from, with its legal
/// moves.
#[derive(Debug)]
pub struct Position {
    text: String,
    moves: Vec<Move>,
}

impl View for Position {
    type V = Seq<char>;

    /// The text of the position.
    closed spec fn view(&self) -> Seq<char> {
        self.text@
    }
}

impl Clone for Position {
    fn clone(&self) -> (copy: Position)
        ensures
            copy@ == self@,
    {
        proof {
            use_type_invariant(self);
        }
        Position { text: self.text.clone(), moves: self.legal_moves() }
    }
}

impl Position {
    #[verifier::type_invariant]
    spec fn can_be_played(self) -> bool {
        playable(self.text@) && self.moves@ == legal_moves_of(self.text@)
    }

    /// Reads a position from its text. The text must place the pieces on
    /// exactly eight ranks of eight squares, with one king of each colour and
    /// at most sixteen pieces a side, and the rules engine must accept it as a
    /// legal board.
    pub fn from_fen(text: &str) -> (made: Option<Position>)
        ensures
            made.is_some() == playable(text@),
            made matches Some(p) ==> p@ == text@,
    {
        if !is_well_shaped(text) {
            return None;
        }
        if !engine_parses(text) {
            return None;
        }
        let moves = engine_legal_moves(text);
        Some(Position { text: text.to_owned(), moves })
    }

    /// The text of the position.
    pub fn fen(&self) -> (text: String)
        ensures
            text@ == self@,
    {
        self.text.clone()
    }

    /// Whether two positions are the same, text for text.
    pub fn same_as(&self, other: &Position) -> (same: bool)
        ensures
            same == (self@ == other@),
    {
        self.text == other.text
    }

    /// The legal moves, in the order the rules engine generates them. The
    /// text of a position can always be played from.
    pub fn legal_moves(&self) -> (moves: Vec<Move>)
        ensures
            moves@ == legal_moves_of(self@),
            moves@.len() <= MAX_MOVES,
            forall|i: int| 0 <= i < moves@.len() ==> (#[trigger] moves@[i]).on_board(),
            playable(self@),
    {
        proof {
            use_type_invariant(self);
        }
        let mut moves: Vec<Move> = Vec::new();
        let mut i: usize = 0;
        while i < self.moves.len()
            invariant
                0 <= i <= self.moves.len(),
                moves@ == self.moves@.take(i as int),
            decreases self.moves.len() - i,
        {
            moves.push(self.moves[i]);
            assert(self.moves@.take(i + 1) =~= self.moves@.take(i as int).push(
                self.moves@[i as int],
            ));
            i += 1;
        }
        assert(self.moves@.take(i as int) =~= self.moves@);
        moves
    }

    /// The position after the legal move `mv`. `None` where what the rules
    /// engine writes for that position cannot be played from.
    pub fn after(&self, mv: Move) -> (next: Option<Position>)
        requires
            legal_moves_of(self@).contains(mv),
        ensures
            next.is_some() == playable(position_after(self@, mv)),
            next matches Some(p) ==> p@ == position_after(self@, mv),
    {
        proof {
            use_type_invariant(self);
            let i = choose|i: int| 0 <= i < self.moves@.len() && self.moves@[i] == mv;
            assert(legal_moves_of(self.text@)[i].on_board());
        }
        let text = engine_apply(self.text.as_str(), mv);
        if !is_well_shaped(text.as_str()) {
            return None;
        }
        if !engine_parses(text.as_str()) {
            return None;
        }
        let moves = engine_legal_moves(text.as_str());
        Some(Position { text, moves })
    }

    /// Plays `mv` if it is legal here. `None` where it is not, or where what
    /// the rules engine writes for the new position cannot be played from.
    pub fn play(&self, mv: Move) -> (next: Option<Position>)
        ensures
            next.is_some() <==> legal_moves_of(self@).contains(mv) && playable(
                position_after(self@, mv),
            ),
            next matches Some(p) ==> p@ == position_after(self@, mv),
    {
        let moves = self.legal_moves();
        let mut i: usize = 0;
        while i < moves.len()
            invariant
                0 <= i <= moves.len(),
                moves@ == legal_moves_of(self@),
                forall|j: int| 0 <= j < i ==> moves@[j] != mv,
            decreases moves.len() - i,
        {
            if moves[i] == mv {
                assert(moves@[i as int] == mv);
                return self.after(mv);
            }
            i += 1;
        }
        None
    }

    /// How the game stands.
    pub fn status(&self) -> (status: Status)
        ensures
            status == status_of(self@),
    {
        proof {
            use_type_invariant(self);
        }
        engine_status(self.text.as_str())
    }

    /// The side that is to move.
    pub fn side_to_move(&self) -> (side: Color)
        ensures
            side == mover_of(self@),
    {
        proof {
            use_type_invariant(self);
        }
        engine_side_to_move(self.text.as_str())
    }

    /// The kind of the piece on `square`, if one stands there.
    pub fn piece_on(&self, square: u8) -> (piece: Option<Piece>)
        requires
            square < 64,
        ensures
            piece == piece_at(self@, square),
    {
        proof {
            use_type_invariant(self);
        }
        engine_piece_on(self.text.as_str(), square)
    }

    /// The colour of the piece on `square`, if one stands there.
    pub fn color_on(&self, square: u8) -> (color: Option<Color>)
        requires
            square < 64,
        ensures
            color == color_at(self@, square),
    {
        proof {
            use_type_invariant(self);
        }
        engine_color_on(self.text.as_str(), square)
    }

    /// The side that gives check, if any: the colour of the first checking
    /// piece.
    pub fn attacker(&self) -> (side: Option<Color>)
        ensures
            side == attacker_of(self@),
    {
        proof {
            use_type_invariant(self);
        }
        let square = engine_checking_square(self.text.as_str());
        if square < 64 {
            self.color_on(square)
        } else {
            None
        }
    }
}

/// Calls `chess::Board::from_str` and says whether it returned a board,
/// which depends on the text alone. The shape asked of `text` keeps the call
/// away from texts without a king, on which the engine reads outside its
/// tables.
#[verifier::external_body]
fn engine_parses(text: &str) -> (ok: bool)
    requires
        well_shaped(text@),
    ensures
        ok == engine_accepts(text@),
{
    chess::Board::from_str(text).is_ok()
}

/// Collects `chess::MoveGen::new_legal` on the board that `text` describes,
/// each move copied field by field. The generator yields its moves in a fixed
/// order that depends on the board alone, never more than `MAX_MOVES` of them,
/// and only between squares of the board. It has room for eighteen moving
/// pieces, which the sixteen pieces a side of a readable text cannot exceed.
#[verifier::external_body]
fn engine_legal_moves(text: &str) -> (moves: Vec<Move>)
    requires
        readable(text@),
    ensures
        moves@ == legal_moves_of(text@),
        moves@.len() <= MAX_MOVES,
        forall|i: int| 0 <= i < moves@.len() ==> (#[trigger] moves@[i]).on_board(),
{
    let board = chess::Board::from_str(text).unwrap();
    chess::MoveGen::new_legal(&board)
        .map(|m| Move {
            source: m.get_source().to_int(),
            dest: m.get_dest().to_int(),
            promotion: m.get_promotion().map(|p| match p {
                chess::Piece::Pawn => Piece::Pawn,
                chess::Piece::Knight => Piece::Knight,
                chess::Piece::Bishop => Piece::Bishop,
                chess::Piece::Rook => Piece::Rook,
                chess::Piece::Queen => Piece::Queen,
                chess::Piece::King => Piece::King,
            }),
        })
        .collect()
}

/// Calls `chess::Board::make_move_new` with the legal move `mv` and writes the
/// new board with the engine's `Display`; what is written depends on the
/// position and the move alone. The engine panics on a move from an empty
/// square, which a legal move is not.
#[verifier::external_body]
fn engine_apply(text: &str, mv: Move) -> (next: String)
    requires
        readable(text@),
        legal_moves_of(text@).contains(mv),
        mv.on_board(),
    ensures
        next@ == position_after(text@, mv),
{
    let board = chess::Board::from_str(text).unwrap();
    let promotion = mv.promotion.map(|p| match p {
        Piece::Pawn => chess::Piece::Pawn,
        Piece::Knight => chess::Piece::Knight,
        Piece::Bishop => chess::Piece::Bishop,
        Piece::Rook => chess::Piece::Rook,
        Piece::Queen => chess::Piece::Queen,
        Piece::King => chess::Piece::King,
    });
    let source = chess::ALL_SQUARES[mv.source as usize];
    let dest = chess::ALL_SQUARES[mv.dest as usize];
    board.make_move_new(chess::ChessMove::new(source, dest, promotion)).to_string()
}

/// Calls `chess::Board::status`, whose answer depends on the board alone.
#[verifier::external_body]
fn engine_status(text: &str) -> (status: Status)
    requires
        readable(text@),
    ensures
        status == status_of(text@),
{
    match chess::Board::from_str(text).unwrap().status() {
        chess::BoardStatus::Ongoing => Status::Ongoing,
        chess::BoardStatus::Stalemate => Status::Stalemate,
        chess::BoardStatus::Checkmate => Status::Checkmate,
    }
}

/// Calls `chess::Board::side_to_move`, which reads the side off the board.
#[verifier::external_body]
fn engine_side_to_move(text: &str) -> (side: Color)
    requires
        readable(text@),
    ensures
        side == mover_of(text@),
{
    match chess::Board::from_str(text).unwrap().side_to_move() {
        chess::Color::White => Color::White,
        chess::Color::Black => Color::Black,
    }
}

/// Calls `chess::Board::piece_on` for the square numbered `square`, which
/// reads the piece off the board.
#[verifier::external_body]
fn engine_piece_on(text: &str, square: u8) -> (piece: Option<Piece>)
    requires
        readable(text@),
        square < 64,
    ensures
        piece == piece_at(text@, square),
{
    let board = chess::Board::from_str(text).unwrap();
    match board.piece_on(chess::ALL_SQUARES[square as usize]) {
        None => None,
        Some(chess::Piece::Pawn) => Some(Piece::Pawn),
        Some(chess::Piece::Knight) => Some(Piece::Knight),
        Some(chess::Piece::Bishop) => Some(Piece::Bishop),
        Some(chess::Piece::Rook) => Some(Piece::Rook),
        Some(chess::Piece::Queen) => Some(Piece::Queen),
        Some(chess::Piece::King) => Some(Piece::King),
    }
}

/// Calls `chess::Board::color_on` for the square numbered `square`, which
/// reads the colour off the board.
#[verifier::external_body]
fn engine_color_on(text: &str, square: u8) -> (color: Option<Color>)
    requires
        readable(text@),
        square < 64,
    ensures
        color == color_at(text@, square),
{
    let board = chess::Board::from_str(text).unwrap();
    match board.color_on(chess::ALL_SQUARES[square as usize]) {
        None => None,
        Some(chess::Color::White) => Some(Color::White),
        Some(chess::Color::Black) => Some(Color::Black),
    }
}

/// Calls `chess::Board::checkers`, the set of the pieces that give check, and
/// `chess::BitBoard::to_square`, which gives the lowest square of a set, and
/// 64 for the empty set.
#[verifier::external_body]
fn engine_checking_square(text: &str) -> (square: u8)
    requires
        readable(text@),
    ensures
        square == checking_square_of(text@),
{
    chess::Board::from_str(text).unwrap().checkers().to_square().to_int()
}

} // verus!
