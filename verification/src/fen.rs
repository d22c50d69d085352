//! The shape of the text that describes a position.
//!
//! A position is written in Forsyth-Edwards notation. Its first field, up to
//! the first blank, places the pieces: eight ranks separated by `/`, each rank
//! a run of piece letters and digits that count empty squares. Before a text
//! is handed to the rules engine this module checks that the first field fills
//! the board exactly, holds exactly one king of each colour, and gives neither
//! side more than the sixteen pieces that a game starts with.

use vstd::prelude::*;
use vstd::string::*;

verus! {

/// The twelve letters that stand for a piece: lower case black, upper case white.
pub open spec fn is_piece_letter(c: char) -> bool {
    c == 'p' || c == 'n' || c == 'b' || c == 'r' || c == 'q' || c == 'k' || c == 'P' || c == 'N'
        || c == 'B' || c == 'R' || c == 'Q' || c == 'K'
}

/// The six letters that stand for a white piece.
pub open spec fn is_white_letter(c: char) -> bool {
    c == 'P' || c == 'N' || c == 'B' || c == 'R' || c == 'Q' || c == 'K'
}

/// The six letters that stand for a black piece.
pub open spec fn is_black_letter(c: char) -> bool {
    c == 'p' || c == 'n' || c == 'b' || c == 'r' || c == 'q' || c == 'k'
}

/// How many pieces of one colour `s` places: the white ones if `white`, else
/// the black ones.
pub open spec fn pieces(s: Seq<char>, white: bool) -> int
    decreases s.len(),
{
    if s.len() == 0 {
        0
    } else {
        pieces(s.drop_last(), white) + if (white && is_white_letter(s.last())) || (!white
            && is_black_letter(s.last())) {
            1int
        } else {
            0int
        }
    }
}

/// The most pieces that one side may have.
pub const MAX_PIECES: usize = 16;

/// How many squares of a rank one character of the placement field covers.
pub open spec fn squares_of(c: char) -> int {
    if '1' <= c && c <= '8' {
        c as u32 as int - '0' as u32 as int
    } else if is_piece_letter(c) {
        1
    } else {
        0
    }
}

/// The squares covered by all characters of `s` together.
pub open spec fn squares(s: Seq<char>) -> int
    decreases s.len(),
{
    if s.len() == 0 {
        0
    } else {
        squares(s.drop_last()) + squares_of(s.last())
    }
}

/// How often `c` occurs in `s`.
pub open spec fn count(s: Seq<char>, c: char) -> int
    decreases s.len(),
{
    if s.len() == 0 {
        0
    } else {
        count(s.drop_last(), c) + if s.last() == c {
            1int
        } else {
            0int
        }
    }
}

/// `n` is where the placement field of `text` ends: at the first blank, or at
/// the end of the text when it holds no blank.
pub open spec fn is_placement_end(text: Seq<char>, n: int) -> bool {
    &&& 0 <= n <= text.len()
    &&& n == text.len() || text[n] == ' '
    &&& forall|j: int| 0 <= j < n ==> text[j] != ' '
}

/// A placement field that fills the board exactly: only piece letters, the
/// digits 1 to 8 and `/`; every `/` closes a rank of exactly eight squares;
/// eight ranks in all; one white and one black king; at most sixteen pieces
/// for either side.
pub open spec fn placement_ok(field: Seq<char>) -> bool {
    &&& forall|i: int|
        0 <= i < field.len() ==> squares_of(#[trigger] field[i]) > 0 || field[i] == '/'
    &&& forall|i: int|
        0 <= i < field.len() && #[trigger] field[i] == '/' ==> squares(field.take(i)) == 8 * (count(
            field.take(i),
            '/',
        ) + 1)
    &&& count(field, '/') == 7
    &&& squares(field) == 64
    &&& count(field, 'K') == 1
    &&& count(field, 'k') == 1
    &&& pieces(field, true) <= MAX_PIECES
    &&& pieces(field, false) <= MAX_PIECES
}

/// A text whose placement field fills the board exactly.
pub open spec fn well_shaped(text: Seq<char>) -> bool {
    exists|n: int| is_placement_end(text, n) && placement_ok(text.take(n))
}

/// A text has one placement end only.
pub proof fn lemma_placement_end_unique(text: Seq<char>, a: int, b: int)
    requires
        is_placement_end(text, a),
        is_placement_end(text, b),
    ensures
        a == b,
{
    if a < b {
        assert(text[a] == ' ');
    } else if b < a {
        assert(text[b] == ' ');
    }
}

/// Taking one more character adds that character's squares and occurrences.
pub proof fn lemma_take_next(s: Seq<char>, i: int, c: char)
    requires
        0 <= i < s.len(),
    ensures
        squares(s.take(i + 1)) == squares(s.take(i)) + squares_of(s[i]),
        count(s.take(i + 1), c) == count(s.take(i), c) + if s[i] == c {
            1int
        } else {
            0int
        },
        pieces(s.take(i + 1), true) == pieces(s.take(i), true) + if is_white_letter(s[i]) {
            1int
        } else {
            0int
        },
        pieces(s.take(i + 1), false) == pieces(s.take(i), false) + if is_black_letter(s[i]) {
            1int
        } else {
            0int
        },
{
    assert(s.take(i + 1).drop_last() =~= s.take(i));
    assert(s.take(i + 1).last() == s[i]);
}

/// Where every character is a letter, a digit or a `/`, the squares and the
/// slashes together number at least the characters.
pub proof fn lemma_squares_fill(s: Seq<char>)
    requires
        forall|i: int| 0 <= i < s.len() ==> squares_of(#[trigger] s[i]) > 0 || s[i] == '/',
    ensures
        squares(s) + count(s, '/') >= s.len(),
    decreases s.len(),
{
    if s.len() > 0 {
        let t = s.drop_last();
        assert forall|i: int| 0 <= i < t.len() implies squares_of(#[trigger] t[i]) > 0 || t[i]
            == '/' by {
            assert(t[i] == s[i]);
        }
        lemma_squares_fill(t);
        assert(squares_of(s.last()) > 0 || s.last() == '/') by {
            assert(s.last() == s[s.len() - 1]);
        }
    }
}

/// How many squares of a rank the character `c` covers.
pub fn char_squares(c: char) -> (n: usize)
    ensures
        n == squares_of(c),
        n <= 8,
{
    if '1' <= c && c <= '8' {
        (c as u32 - '0' as u32) as usize
    } else if c == 'p' || c == 'n' || c == 'b' || c == 'r' || c == 'q' || c == 'k' || c == 'P' || c
        == 'N' || c == 'B' || c == 'R' || c == 'Q' || c == 'K' {
        1
    } else {
        0
    }
}

/// Finds where the placement field of `text` ends.
pub fn placement_end(text: &str) -> (n: usize)
    ensures
        is_placement_end(text@, n as int),
{
    let len = text.unicode_len();
    let mut i: usize = 0;
    while i < len
        invariant
            len == text@.len(),
            0 <= i <= len,
            forall|j: int| 0 <= j < i ==> text@[j] != ' ',
        decreases len - i,
    {
        if text.get_char(i) == ' ' {
            return i;
        }
        i += 1;
    }
    i
}

/// Decides whether the placement field of `text` fills the board exactly.
pub fn is_well_shaped(text: &str) -> (ok: bool)
    ensures
        ok == well_shaped(text@),
{
    let end = placement_end(text);
    let ghost field = text@.take(end as int);
    proof {
        assert forall|n: int| is_placement_end(text@, n) implies n == end by {
            lemma_placement_end_unique(text@, n, end as int);
        }
    }
    if end > 71 {
        proof {
            if placement_ok(field) {
                lemma_squares_fill(field);
            }
        }
        return false;
    }
    let mut i: usize = 0;
    let mut filled: usize = 0;
    let mut slashes: usize = 0;
    let mut white_kings: usize = 0;
    let mut black_kings: usize = 0;
    let mut white: usize = 0;
    let mut black: usize = 0;
    let mut good = true;
    while i < end
        invariant
            0 <= i <= end <= 71,
            end <= text@.len(),
            field == text@.take(end as int),
            filled == squares(field.take(i as int)),
            slashes == count(field.take(i as int), '/'),
            white_kings == count(field.take(i as int), 'K'),
            black_kings == count(field.take(i as int), 'k'),
            white == pieces(field.take(i as int), true),
            black == pieces(field.take(i as int), false),
            white <= i,
            black <= i,
            filled <= 8 * i,
            slashes <= i,
            white_kings <= i,
            black_kings <= i,
            good == ((forall|j: int|
                0 <= j < i ==> squares_of(#[trigger] field[j]) > 0 || field[j] == '/') && (forall|
                j: int,
            |
                0 <= j < i && #[trigger] field[j] == '/' ==> squares(field.take(j)) == 8 * (count(
                    field.take(j),
                    '/',
                ) + 1))),
        decreases end - i,
    {
        let c = text.get_char(i);
        assert(c == field[i as int]);
        let width = char_squares(c);
        proof {
            lemma_take_next(field, i as int, '/');
            lemma_take_next(field, i as int, 'K');
            lemma_take_next(field, i as int, 'k');
        }
        if c == '/' {
            if filled != 8 * (slashes + 1) {
                good = false;
            }
            slashes += 1;
        } else if width == 0 {
            good = false;
        }
        if c == 'K' {
            white_kings += 1;
        }
        if c == 'k' {
            black_kings += 1;
        }
        if c == 'P' || c == 'N' || c == 'B' || c == 'R' || c == 'Q' || c == 'K' {
            white += 1;
        }
        if c == 'p' || c == 'n' || c == 'b' || c == 'r' || c == 'q' || c == 'k' {
            black += 1;
        }
        filled += width;
        i += 1;
    }
    assert(field.take(end as int) =~= field);
    good && slashes == 7 && filled == 64 && white_kings == 1 && black_kings == 1 && white
        <= MAX_PIECES && black <= MAX_PIECES
}

} // verus!
