//! A text diagram of the board.
use vstd::prelude::*;
use crate::bits::bit;
use crate::bitboard::BitBoard;
use crate::board::Board;
use crate::defs::{PieceType, Square};
use crate::text::string_from_chars;

verus! {

/// The line between two ranks of the diagram.
pub open spec fn border() -> Seq<char> {
    Seq::new(34, |i: int| if i == 33 { '\n' } else if i % 4 == 0 { '+' } else { '-' })
}

/// The file letters under the diagram, and a blank line.
pub open spec fn footer() -> Seq<char> {
    Seq::new(35, |i: int| if i >= 33 { '\n' } else if i % 4 == 2 { ((97 + i / 4) as char) } else { ' ' })
}

/// The letter of a piece type, lower case; a blank for an empty square.
pub open spec fn type_letter(t: PieceType) -> char {
    match t {
        PieceType::Pawn => 'p',
        PieceType::Knight => 'n',
        PieceType::Bishop => 'b',
        PieceType::Rook => 'r',
        PieceType::Queen => 'q',
        PieceType::King => 'k',
        PieceType::NoPiece => ' ',
    }
}

/// The letter in upper case.
pub open spec fn upper(c: char) -> char {
    if 'a' <= c <= 'z' { ((c as int) - 32) as char } else { c }
}

/// The cell of the square in row `y` (the eighth rank first) and file `x`: a bar and the
/// piece letter between blanks, upper case for white; the last cell of a row closes it
/// with a bar and the rank number.
pub open spec fn cell(b: &Board, y: int, x: int) -> Seq<char> {
    let sq = 8 * (7 - y) + x;
    let l = type_letter(b.at(sq).t);
    let letter = if bit(b.side_bb[0], sq) { upper(l) } else { l };
    let c = seq!['|', ' ', letter, ' '];
    if x == 7 {
        c + seq!['|', ' ', ((48 + 8 - y) as char), '\n']
    } else {
        c
    }
}

/// The first `x` cells of row `y`.
pub open spec fn cells(b: &Board, y: int, x: int) -> Seq<char>
    decreases x,
{
    if x <= 0 {
        Seq::empty()
    } else {
        cells(b, y, x - 1) + cell(b, y, x - 1)
    }
}

/// The first `y` rows, each under a border.
pub open spec fn rows(b: &Board, y: int) -> Seq<char>
    decreases y,
{
    if y <= 0 {
        seq!['\n']
    } else {
        rows(b, y - 1) + border() + cells(b, y - 1, 8)
    }
}

/// The whole diagram.
pub open spec fn diagram(b: &Board) -> Seq<char> {
    rows(b, 8) + border() + footer()
}

/// Appends the border line.
fn push_border(out: &mut Vec<char>)
    ensures
        final(out)@ == old(out)@ + border(),
{
    let mut i: usize = 0;
    while i < 34
        invariant
            i <= 34,
            out@ == old(out)@ + border().take(i as int),
        decreases 34 - i,
    {
        let c = if i == 33 { '\n' } else if i % 4 == 0 { '+' } else { '-' };
        out.push(c);
        i = i + 1;
        assert(border().take(i as int) =~= border().take(i - 1) + seq![c]);
    }
    assert(border().take(34) =~= border());
}

/// Appends the file letters.
fn push_footer(out: &mut Vec<char>)
    ensures
        final(out)@ == old(out)@ + footer(),
{
    let mut i: usize = 0;
    while i < 35
        invariant
            i <= 35,
            out@ == old(out)@ + footer().take(i as int),
        decreases 35 - i,
    {
        let c = if i >= 33 { '\n' } else if i % 4 == 2 { ((97 + i / 4) as u8) as char } else { ' ' };
        out.push(c);
        i = i + 1;
        assert(footer().take(i as int) =~= footer().take(i - 1) + seq![c]);
    }
    assert(footer().take(35) =~= footer());
}

fn letter_of(t: PieceType) -> (r: char)
    ensures
        r == type_letter(t),
{
    match t {
        PieceType::Pawn => 'p',
        PieceType::Knight => 'n',
        PieceType::Bishop => 'b',
        PieceType::Rook => 'r',
        PieceType::Queen => 'q',
        PieceType::King => 'k',
        PieceType::NoPiece => ' ',
    }
}

impl Board {
    /// A diagram of the board, eighth rank first: white pieces in upper case, black in
    /// lower case, ranks numbered on the right and files lettered below.
    pub fn pretty_string(&self) -> (s: String)
        ensures
            s@ == diagram(self),
    {
        let mut out: Vec<char> = Vec::new();
        out.push('\n');
        let mut y: i8 = 0;
        while y < 8
            invariant
                0 <= y <= 8,
                out@ == rows(self, y as int),
            decreases 8 - y,
        {
            push_border(&mut out);
            let ghost start = out@;
            let mut x: i8 = 0;
            while x < 8
                invariant
                    0 <= x <= 8,
                    0 <= y < 8,
                    out@ == start + cells(self, y as int, x as int),
                decreases 8 - x,
            {
                let square: Square = 8 * (7 - y) + x;
                let is_white = BitBoard::contains(self.side_bb[0], square);
                let l = letter_of(self.piece_type(square));
                let letter = if is_white && 'a' <= l && l <= 'z' { ((l as u8) - 32) as char } else { l };
                out.push('|');
                out.push(' ');
                out.push(letter);
                out.push(' ');
                if x == 7 {
                    out.push('|');
                    out.push(' ');
                    out.push(((48 + 8 - y) as u8) as char);
                    out.push('\n');
                }
                assert(out@ =~= start + cells(self, y as int, x + 1));
                x = x + 1;
            }
            y = y + 1;
        }
        push_border(&mut out);
        push_footer(&mut out);
        string_from_chars(&out)
    }
}

} // verus!
