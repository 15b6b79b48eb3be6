//! Squares of the 0x88 board and their algebraic names.

use vstd::prelude::*;
use vstd::string::*;

verus! {

/// Index of a square: `rank * 16 + file`, rank 0 being the eighth rank.
pub type Square = u8;

/// A square index lies on the board when both its file and its rank are below 8.
pub open spec fn on_board(sq: int) -> bool {
    0 <= sq < 128 && sq % 16 < 8
}

/// File of a square, 0 for the a-file.
pub open spec fn file_of(sq: int) -> int {
    sq % 16
}

/// Rank index of a square, 0 for the eighth rank and 7 for the first.
pub open spec fn rank_of(sq: int) -> int {
    sq / 16
}

/// The 0x88 test agrees with the arithmetic description of the board.
pub proof fn lemma_mask_is_on_board(sq: u8)
    ensures
        (sq & 0x88 == 0) <==> on_board(sq as int),
        sq & 0x7 == sq % 16 % 8,
        sq >> 4 == sq / 16,
{
    assert((sq & 0x88 == 0) <==> (sq < 128 && sq % 16 < 8)) by (bit_vector);
    assert(sq & 0x7 == sq % 16 % 8) by (bit_vector);
    assert(sq >> 4 == sq / 16) by (bit_vector);
}

/// Masking with 0x88 decides validity, and clearing those two bits keeps a
/// valid square as it is and makes any index valid.
pub proof fn lemma_valid_under_mask(sq: u8)
    ensures
        sq & 0x88 != 0 ==> !on_board(sq as int),
        on_board(sq as int) ==> sq & 0x77 == sq,
        on_board((sq & 0x77) as int),
{
    lemma_mask_is_on_board(sq);
    lemma_mask_is_on_board(sq & 0x77);
    assert(sq & 0x88 == 0 ==> sq & 0x77 == sq) by (bit_vector);
    assert((sq & 0x77) & 0x88 == 0) by (bit_vector);
}

/// The letter of a file, `a` to `h`.
pub open spec fn file_letter(file: int) -> char {
    ('a' as int + file) as char
}

/// The digit of a rank index: `8` for rank index 0 down to `1` for 7.
pub open spec fn rank_digit(rank: int) -> char {
    ('8' as int - rank) as char
}

/// The algebraic name of a square on the board.
pub open spec fn square_name(sq: int) -> Seq<char> {
    seq![file_letter(file_of(sq)), rank_digit(rank_of(sq))]
}

/// Lower-case form of an ASCII capital; any other character is unchanged.
pub open spec fn ascii_lower(c: char) -> char {
    if 'A' <= c <= 'Z' {
        ((c as int) + 32) as char
    } else {
        c
    }
}

/// A text names a square when it is a file letter, in either case, followed
/// by a rank digit.
pub open spec fn names_square(text: Seq<char>) -> bool {
    &&& text.len() == 2
    &&& 'a' <= ascii_lower(text[0]) <= 'h'
    &&& '1' <= text[1] <= '8'
}

/// The square that a text names.
pub open spec fn named_square(text: Seq<char>) -> int {
    ('8' as int - text[1] as int) * 16 + (ascii_lower(text[0]) as int - 'a' as int)
}

/// Reads a square in algebraic notation. The file letter may be in either
/// case; any other text gives `None`.
pub fn coords_to_square(coord: &str) -> (r: Option<Square>)
    ensures
        names_square(coord@) ==> r == Some(named_square(coord@) as u8),
        !names_square(coord@) ==> r is None,
        r matches Some(sq) ==> on_board(sq as int),
{
    if coord.unicode_len() != 2 {
        return None;
    }
    let f: char = coord.get_char(0);
    let d: char = coord.get_char(1);
    let file: u32 = if 'A' <= f && f <= 'Z' {
        f as u32 + 32
    } else {
        f as u32
    };
    let rank: u32 = d as u32;
    if file < 'a' as u32 || file > 'h' as u32 || rank < '1' as u32 || rank > '8' as u32 {
        return None;
    }
    let file_idx: u32 = file - 'a' as u32;
    let rank_idx: u32 = '8' as u32 - rank;
    Some((rank_idx * 16 + file_idx) as u8)
}

fn file_text(file: u8) -> (r: &'static str)
    requires
        file < 8,
    ensures
        r@ == seq![file_letter(file as int)],
{
    proof {
        reveal_strlit("a");
        reveal_strlit("b");
        reveal_strlit("c");
        reveal_strlit("d");
        reveal_strlit("e");
        reveal_strlit("f");
        reveal_strlit("g");
        reveal_strlit("h");
    }
    let r = if file == 0 {
        "a"
    } else if file == 1 {
        "b"
    } else if file == 2 {
        "c"
    } else if file == 3 {
        "d"
    } else if file == 4 {
        "e"
    } else if file == 5 {
        "f"
    } else if file == 6 {
        "g"
    } else {
        "h"
    };
    assert(r@ =~= seq![file_letter(file as int)]);
    r
}

fn rank_text(rank: u8) -> (r: &'static str)
    requires
        rank < 8,
    ensures
        r@ == seq![rank_digit(rank as int)],
{
    proof {
        reveal_strlit("1");
        reveal_strlit("2");
        reveal_strlit("3");
        reveal_strlit("4");
        reveal_strlit("5");
        reveal_strlit("6");
        reveal_strlit("7");
        reveal_strlit("8");
    }
    let r = if rank == 0 {
        "8"
    } else if rank == 1 {
        "7"
    } else if rank == 2 {
        "6"
    } else if rank == 3 {
        "5"
    } else if rank == 4 {
        "4"
    } else if rank == 5 {
        "3"
    } else if rank == 6 {
        "2"
    } else {
        "1"
    };
    assert(r@ =~= seq![rank_digit(rank as int)]);
    r
}

/// Writes a square in algebraic notation; `None` for an index off the board.
pub fn square_to_coords(square: Square) -> (r: Option<String>)
    ensures
        on_board(square as int) ==> (r matches Some(s) && s@ == square_name(square as int)),
        !on_board(square as int) ==> r is None,
{
    proof {
        lemma_mask_is_on_board(square);
    }
    if square & 0x88 == 0 {
        let file: u8 = square & 0x7;
        let rank: u8 = square >> 4;
        let mut s = String::from_str(file_text(file));
        s.append(rank_text(rank));
        assert(s@ =~= square_name(square as int));
        Some(s)
    } else {
        None
    }
}

/// Reading the name that was written for a square gives the square back.
pub proof fn lemma_coords_round_trip(sq: u8)
    requires
        on_board(sq as int),
    ensures
        names_square(square_name(sq as int)),
        named_square(square_name(sq as int)) == sq,
{
}

/// Writing the square that a text names gives the text back, with the file
/// letter in lower case.
pub proof fn lemma_name_round_trip(text: Seq<char>)
    requires
        names_square(text),
    ensures
        on_board(named_square(text)),
        square_name(named_square(text)) == seq![ascii_lower(text[0]), text[1]],
{
    assert(square_name(named_square(text)) =~= seq![ascii_lower(text[0]), text[1]]);
}

} // verus!
