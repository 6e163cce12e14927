//! The text form of a board: twenty characters, one per cell.

use vstd::prelude::*;
use crate::cards::{BOARD_SIZE, JOKER};

verus! {

/// The character that stands for the wildcard.
pub const JOKER_GLYPH: char = '\u{2605}';

/// The cell code a character stands for: `_` is the empty cell, the star is
/// the wildcard, a digit is its own value (so `0` reads as the empty cell),
/// and the letters `A` to `U` are the values 10 to 30.
pub open spec fn cell_code(ch: char) -> Option<u8> {
    if ch == '_' {
        Some(0u8)
    } else if ch == JOKER_GLYPH {
        Some(JOKER)
    } else if '0' <= ch <= '9' {
        Some((ch as u32 - '0' as u32) as u8)
    } else if 'A' <= ch <= 'U' {
        Some((10 + (ch as u32 - 'A' as u32)) as u8)
    } else {
        None
    }
}

/// The index of the first character from `from` on that stands for no cell,
/// or the length of `s` where every one does.
pub open spec fn first_unknown(s: Seq<char>, from: int) -> int
    decreases s.len() - from,
{
    if from >= s.len() || cell_code(s[from]) is None {
        from
    } else {
        first_unknown(s, from + 1)
    }
}

/// What a text parses to: its cells, or the message that says what is wrong
/// with it. A wrong length is reported before a wrong character, and of
/// several wrong characters the first.
pub open spec fn parsed_board(s: Seq<char>) -> Result<Seq<u8>, Seq<char>> {
    if s.len() != BOARD_SIZE {
        Err("board string must be 20 chars"@)
    } else if first_unknown(s, 0) < s.len() {
        Err("bad char "@.push(s[first_unknown(s, 0)]))
    } else {
        Ok(Seq::new(s.len(), |i: int| cell_code(s[i]).unwrap()))
    }
}

/// `String::push` appends the character to the end of the string.
pub assume_specification[ String::push ](s: &mut String, ch: char)
    ensures
        final(s)@ == old(s)@.push(ch),
;

/// Reads one character of a board text.
pub fn cell_from_char(ch: char) -> (cell: Option<u8>)
    ensures
        cell == cell_code(ch),
{
    if ch == '_' {
        Some(0)
    } else if ch == JOKER_GLYPH {
        Some(JOKER)
    } else if '0' <= ch && ch <= '9' {
        Some((ch as u32 - '0' as u32) as u8)
    } else if 'A' <= ch && ch <= 'U' {
        Some((10 + (ch as u32 - 'A' as u32)) as u8)
    } else {
        None
    }
}

/// Reads a board from its text form.
pub fn board_from_str(s: &str) -> (r: Result<[u8; 20], String>)
    ensures
        match r {
            Ok(cells) => parsed_board(s@) == Ok::<Seq<u8>, Seq<char>>(cells@),
            Err(msg) => parsed_board(s@) == Err::<Seq<u8>, Seq<char>>(msg@),
        },
{
    if s.unicode_len() != BOARD_SIZE {
        return Err(String::from_str("board string must be 20 chars"));
    }
    let mut cells: [u8; 20] = [0u8; 20];
    let mut i: usize = 0;
    while i < BOARD_SIZE
        invariant
            0 <= i <= BOARD_SIZE,
            s@.len() == BOARD_SIZE,
            first_unknown(s@, 0) == first_unknown(s@, i as int),
            forall|j: int| 0 <= j < i ==> cell_code(s@[j]) == Some(cells@[j]),
        decreases BOARD_SIZE - i,
    {
        let ch: char = s.get_char(i);
        match cell_from_char(ch) {
            Some(cell) => {
                cells[i] = cell;
            },
            None => {
                let mut msg: String = String::from_str("bad char ");
                msg.push(ch);
                return Err(msg);
            },
        }
        i = i + 1;
    }
    assert(cells@ =~= Seq::new(s@.len(), |i: int| cell_code(s@[i]).unwrap()));
    Ok(cells)
}

} // verus!
