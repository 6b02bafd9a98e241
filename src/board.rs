//! A naval battle board: a square grid of cells, each empty or part of a
//! boat, and how many boats of each length (1 to 4) may still be placed.
//! Boats may not touch, not even at a corner.

use crate::text::{
    chars_of, digits, parse_unsigned, parse_unsigned_chars, push_digits, split_chars, split_on,
    string_of_chars,
};
use vstd::prelude::*;

verus! {

/// Side of the board.
pub const BSIZE: usize = 20;

#[derive(Debug, PartialEq, Eq, Structural)]
pub enum Error {
    Overlap,
    OutOfBounds,
    BoatCount,
}

/// A boat of the given length, placed downwards or rightwards from its
/// first cell.
#[derive(Debug, Clone, Copy, PartialEq, Eq, Structural)]
pub enum Boat {
    Vertical(usize),
    Horizontal(usize),
}

pub open spec fn boat_len(b: Boat) -> int {
    match b {
        Boat::Vertical(v) => v as int,
        Boat::Horizontal(h) => h as int,
    }
}

/// A boat that starts at `pos` fits when its far end stays strictly inside
/// the last row or column and its other coordinate is on the board.
pub open spec fn fits(b: Boat, pos: (usize, usize)) -> bool {
    match b {
        Boat::Vertical(v) => pos.0 + v < BSIZE && pos.1 < BSIZE,
        Boat::Horizontal(h) => pos.1 + h < BSIZE && pos.0 < BSIZE,
    }
}

/// Cell `(r, c)` is covered by the boat.
pub open spec fn on_boat(b: Boat, pos: (usize, usize), r: int, c: int) -> bool {
    match b {
        Boat::Vertical(v) => c == pos.1 && pos.0 <= r < pos.0 + v,
        Boat::Horizontal(h) => r == pos.0 && pos.1 <= c < pos.1 + h,
    }
}

pub open spec fn lower_edge(x: int) -> int {
    if x == 0 {
        0
    } else {
        x - 1
    }
}

pub open spec fn upper_edge(x: int) -> int {
    if x == BSIZE - 1 {
        x
    } else {
        x + 1
    }
}

/// Cell `(r, c)` is the boat's or one next to it, which must all be empty.
pub open spec fn near(b: Boat, pos: (usize, usize), r: int, c: int) -> bool {
    &&& lower_edge(pos.0 as int) <= r
    &&& lower_edge(pos.1 as int) <= c
    &&& match b {
        Boat::Vertical(v) => r <= pos.0 + v && c <= upper_edge(pos.1 as int),
        Boat::Horizontal(h) => r <= upper_edge(pos.0 as int) && c <= pos.1 + h,
    }
}

pub open spec fn cell_index(r: int, c: int) -> int {
    r * BSIZE + c
}

pub open spec fn on_board(r: int, c: int) -> bool {
    0 <= r < BSIZE && 0 <= c < BSIZE
}

/// The text of a board: the four counts separated by spaces, then one line
/// per row with a space for an empty cell and `B` for a boat cell.
pub open spec fn board_text(boats: Seq<u8>, cells: Seq<u8>) -> Seq<char> {
    digits(boats[0] as nat) + seq![' '] + digits(boats[1] as nat) + seq![' '] + digits(
        boats[2] as nat,
    ) + seq![' '] + digits(boats[3] as nat) + seq!['\n'] + rows_text(cells, BSIZE as nat)
}

pub open spec fn cell_char(v: u8) -> char {
    if v == 0 {
        ' '
    } else {
        'B'
    }
}

pub open spec fn row_text(cells: Seq<u8>, r: int) -> Seq<char> {
    Seq::new(BSIZE as nat, |c: int| cell_char(cells[cell_index(r, c)]))
}

/// The first `n` rows, each followed by a line break.
pub open spec fn rows_text(cells: Seq<u8>, n: nat) -> Seq<char>
    decreases n,
{
    if n == 0 {
        Seq::empty()
    } else {
        rows_text(cells, (n - 1) as nat) + row_text(cells, n - 1) + seq!['\n']
    }
}

/// The space-separated counts on the first line of a board's text.
pub open spec fn count_tokens(s: Seq<char>) -> Seq<Seq<char>> {
    split_on(split_on(s, '\n')[0], ' ')
}

/// The first line holds at most four counts, each a number from 0 to 255.
pub open spec fn counts_ok(s: Seq<char>) -> bool {
    &&& count_tokens(s).len() <= 4
    &&& forall|k: int|
        0 <= k < count_tokens(s).len() ==> #[trigger] parse_unsigned(count_tokens(s)[k], 255) is Some
}

/// Count `i` read from the text; a missing one is zero.
pub open spec fn count_of(s: Seq<char>, i: int) -> u8 {
    if i < count_tokens(s).len() {
        parse_unsigned(count_tokens(s)[i], 255)->0 as u8
    } else {
        0
    }
}

/// Cell `(r, c)` read from the text: line `r + 1` has a character other
/// than a space at column `c`.
pub open spec fn cell_from_text(s: Seq<char>, r: int, c: int) -> u8 {
    let lines = split_on(s, '\n');
    if r + 1 < lines.len() && c < lines[r + 1].len() && lines[r + 1][c] != ' ' {
        1
    } else {
        0
    }
}

/// A boat given as its length, 1 to 4, then `V` or `H`: the length and
/// the letter.
pub open spec fn boat_arg(s: Seq<char>) -> Option<(usize, char)> {
    if s.len() > 0 && (s.last() == 'V' || s.last() == 'H') && '1' <= s[0] && s[0] <= '4' {
        Some(((s[0] as u32 - '0' as u32) as usize, s.last()))
    } else {
        None
    }
}

/// Four counts from 0 to 255 separated by commas.
pub open spec fn boats_arg_ok(s: Seq<char>) -> bool {
    &&& split_on(s, ',').len() == 4
    &&& forall|k: int|
        0 <= k < 4 ==> #[trigger] parse_unsigned(split_on(s, ',')[k], 255) is Some
}

/// Two non-negative numbers separated by a comma.
pub open spec fn start_arg_ok(s: Seq<char>) -> bool {
    &&& split_on(s, ',').len() == 2
    &&& parse_unsigned(split_on(s, ',')[0], usize::MAX as nat) is Some
    &&& parse_unsigned(split_on(s, ',')[1], usize::MAX as nat) is Some
}

pub struct Board {
    boats: Vec<u8>,
    data: Vec<u8>,
}

impl Board {
    /// Boats of each length still to place, for lengths 1 to 4.
    pub closed spec fn spec_boats(&self) -> Seq<u8> {
        self.boats@
    }

    /// The cells row by row; cell `(r, c)` is at `cell_index(r, c)`.
    pub closed spec fn cells(&self) -> Seq<u8> {
        self.data@
    }

    pub open spec fn wf(&self) -> bool {
        self.spec_boats().len() == 4 && self.cells().len() == BSIZE * BSIZE
    }

    /// An empty board that may take `boats[i]` boats of length `i + 1`.
    pub fn new(boats: &[u8]) -> (r: Board)
        requires
            boats@.len() == 4,
        ensures
            r.wf(),
            r.spec_boats() == boats@,
            forall|i: int| 0 <= i < BSIZE * BSIZE ==> r.cells()[i] == 0,
    {
        let mut b: Vec<u8> = Vec::new();
        let mut i: usize = 0;
        while i < 4
            invariant
                i <= 4,
                boats@.len() == 4,
                b@ == boats@.take(i as int),
            decreases 4 - i,
        {
            b.push(boats[i]);
            i = i + 1;
            assert(b@ =~= boats@.take(i as int));
        }
        assert(boats@.take(4) =~= boats@);
        let mut data: Vec<u8> = Vec::new();
        while data.len() < BSIZE * BSIZE
            invariant
                data@.len() <= BSIZE * BSIZE,
                forall|k: int| 0 <= k < data@.len() ==> data@[k] == 0,
            decreases BSIZE * BSIZE - data@.len(),
        {
            data.push(0);
        }
        Board { boats: b, data }
    }

    /// Reads a board from its text: the counts on the first line, separated
    /// by spaces (missing ones are zero), then one line per row, where any
    /// character other than a space marks a boat cell; missing lines and
    /// columns are empty, and anything past the last column or row is
    /// ignored.
    pub fn from(s: String) -> (r: Board)
        requires
            counts_ok(s@),
        ensures
            r.wf(),
            forall|i: int| 0 <= i < 4 ==> #[trigger] r.spec_boats()[i] == count_of(s@, i),
            forall|rr: int, cc: int|
                on_board(rr, cc) ==> #[trigger] r.cells()[cell_index(rr, cc)] == cell_from_text(
                    s@,
                    rr,
                    cc,
                ),
    {
        let t = chars_of(s.as_str());
        let lines = split_chars(&t, '\n');
        proof { crate::text::lemma_split_nonempty(s@, '\n'); }
        let toks = split_chars(&lines[0], ' ');
        let mut boats: Vec<u8> = Vec::new();
        let mut i: usize = 0;
        while i < 4
            invariant
                t@ == s@,
                counts_ok(s@),
                lines@.len() == split_on(s@, '\n').len(),
                lines@.len() >= 1,
                lines@[0]@ == split_on(s@, '\n')[0],
                toks@.len() == count_tokens(s@).len(),
                forall|k: int| 0 <= k < toks@.len() ==> (#[trigger] toks@[k])@ == count_tokens(s@)[k],
                i <= 4,
                boats@.len() == i,
                forall|k: int| 0 <= k < i ==> #[trigger] boats@[k] == count_of(s@, k),
            decreases 4 - i,
        {
            if i < toks.len() {
                assert(parse_unsigned(count_tokens(s@)[i as int], 255) is Some);
                match parse_unsigned_chars(&toks[i], 255) {
                    Some(v) => boats.push(v as u8),
                    None => boats.push(0),
                }
            } else {
                boats.push(0);
            }
            i = i + 1;
        }
        let mut data: Vec<u8> = Vec::new();
        let mut r: usize = 0;
        while r < BSIZE
            invariant
                lines@.len() == split_on(s@, '\n').len(),
                forall|k: int| 0 <= k < lines@.len() ==> (#[trigger] lines@[k])@ == split_on(s@, '\n')[k],
                r <= BSIZE,
                data@.len() == r * BSIZE,
                forall|rr: int, cc: int|
                    0 <= rr < r && 0 <= cc < BSIZE ==> #[trigger] data@[cell_index(rr, cc)]
                        == cell_from_text(s@, rr, cc),
            decreases BSIZE - r,
        {
            let mut c: usize = 0;
            while c < BSIZE
                invariant
                    lines@.len() == split_on(s@, '\n').len(),
                    forall|k: int| 0 <= k < lines@.len() ==> (#[trigger] lines@[k])@ == split_on(s@, '\n')[k],
                    r < BSIZE,
                    c <= BSIZE,
                    data@.len() == r * BSIZE + c,
                    forall|rr: int, cc: int|
                        0 <= rr < r && 0 <= cc < BSIZE ==> #[trigger] data@[cell_index(rr, cc)]
                            == cell_from_text(s@, rr, cc),
                    forall|cc: int|
                        0 <= cc < c ==> #[trigger] data@[cell_index(r as int, cc)]
                            == cell_from_text(s@, r as int, cc),
                decreases BSIZE - c,
            {
                let v: u8 = if r + 1 < lines.len() && c < lines[r + 1].len() && lines[r + 1][c]
                    != ' ' {
                    1
                } else {
                    0
                };
                data.push(v);
                c = c + 1;
            }
            r = r + 1;
        }
        Board { boats, data }
    }

    /// Places `boat` with its first cell at `pos` (row, column). Fails, with
    /// the board unchanged, when no boat of that length is left
    /// (`BoatCount`), when it does not fit (`OutOfBounds`), or when one of
    /// its cells or their neighbours is taken (`Overlap`).
    pub fn add_boat(&mut self, boat: Boat, pos: (usize, usize)) -> (r: Result<(), Error>)
        requires
            old(self).wf(),
            1 <= boat_len(boat) <= 4,
        ensures
            final(self).wf(),
            ({
                let k = boat_len(boat) - 1;
                let count_left = old(self).spec_boats()[k] > 0;
                let taken = exists|rr: int, cc: int|
                    on_board(rr, cc) && near(boat, pos, rr, cc) && #[trigger] old(
                        self,
                    ).cells()[cell_index(rr, cc)] == 1;
                &&& !count_left ==> r == Err::<(), Error>(Error::BoatCount)
                &&& count_left && !fits(boat, pos) ==> r == Err::<(), Error>(Error::OutOfBounds)
                &&& count_left && fits(boat, pos) && taken ==> r == Err::<(), Error>(
                    Error::Overlap,
                )
                &&& r.is_err() ==> *final(self) == *old(self)
                &&& r.is_ok() <==> count_left && fits(boat, pos) && !taken
                &&& r.is_ok() ==> final(self).spec_boats() == old(self).spec_boats().update(
                    k,
                    (old(self).spec_boats()[k] - 1) as u8,
                )
                &&& r.is_ok() ==> forall|rr: int, cc: int|
                    on_board(rr, cc) ==> #[trigger] final(self).cells()[cell_index(rr, cc)] == if on_boat(
                        boat,
                        pos,
                        rr,
                        cc,
                    ) {
                        1u8
                    } else {
                        old(self).cells()[cell_index(rr, cc)]
                    }
            }),
    {
        let len: usize = match boat {
            Boat::Vertical(v) => v,
            Boat::Horizontal(h) => h,
        };
        if self.boats[len - 1] == 0 {
            return Err(Error::BoatCount);
        }
        let fits_board = match boat {
            Boat::Vertical(v) => pos.0 < BSIZE - v && pos.1 < BSIZE,
            Boat::Horizontal(h) => pos.1 < BSIZE - h && pos.0 < BSIZE,
        };
        if !fits_board {
            return Err(Error::OutOfBounds);
        }
        let start_row = if pos.0 == 0 {
            0
        } else {
            pos.0 - 1
        };
        let start_col = if pos.1 == 0 {
            0
        } else {
            pos.1 - 1
        };
        let (final_row, final_col) = match boat {
            Boat::Vertical(v) => (
                pos.0 + v,
                if pos.1 == BSIZE - 1 {
                    pos.1
                } else {
                    pos.1 + 1
                },
            ),
            Boat::Horizontal(h) => (
                if pos.0 == BSIZE - 1 {
                    pos.0
                } else {
                    pos.0 + 1
                },
                pos.1 + h,
            ),
        };
        assert(forall|rr: int, cc: int|
            near(boat, pos, rr, cc) <==> (start_row <= rr <= final_row && start_col <= cc
                <= final_col));
        let mut r: usize = start_row;
        while r <= final_row
            invariant
                self.wf(),
                forall|rr: int, cc: int|
                    near(boat, pos, rr, cc) <==> (start_row <= rr <= final_row && start_col <= cc
                        <= final_col),
                *self == *old(self),
                fits(boat, pos),
                1 <= boat_len(boat) <= 4,
                old(self).spec_boats()[boat_len(boat) - 1] > 0,
                start_row <= r <= final_row + 1,
                final_row < BSIZE,
                final_col < BSIZE,
                start_col <= final_col,
                forall|rr: int, cc: int|
                    start_row <= rr < r && start_col <= cc <= final_col ==> #[trigger] self.cells()[cell_index(rr, cc)] != 1,
            decreases final_row + 1 - r,
        {
            let mut c: usize = start_col;
            while c <= final_col
                invariant
                    self.wf(),
                    forall|rr: int, cc: int|
                        near(boat, pos, rr, cc) <==> (start_row <= rr <= final_row && start_col <= cc
                            <= final_col),
                    *self == *old(self),
                    fits(boat, pos),
                    1 <= boat_len(boat) <= 4,
                    old(self).spec_boats()[boat_len(boat) - 1] > 0,
                fits(boat, pos),
                1 <= boat_len(boat) <= 4,
                old(self).spec_boats()[boat_len(boat) - 1] > 0,
                    start_row <= r <= final_row,
                    start_col <= c <= final_col + 1,
                    final_row < BSIZE,
                    final_col < BSIZE,
                    forall|rr: int, cc: int|
                        start_row <= rr < r && start_col <= cc <= final_col ==> #[trigger] self.cells()[cell_index(rr, cc)] != 1,
                    forall|cc: int|
                        start_col <= cc < c ==> #[trigger] self.cells()[cell_index(r as int, cc)] != 1,
                decreases final_col + 1 - c,
            {
                if self.data[r * BSIZE + c] == 1 {
                    assert(on_board(r as int, c as int) && near(boat, pos, r as int, c as int)
                        && self.cells()[cell_index(r as int, c as int)] == 1);
                    assert(old(self).cells()[cell_index(r as int, c as int)] == 1);
                    return Err(Error::Overlap);
                }
                c = c + 1;
            }
            r = r + 1;
        }
        assert(forall|rr: int, cc: int|
            on_board(rr, cc) && near(boat, pos, rr, cc) ==> #[trigger] self.cells()[cell_index(rr, cc)] != 1);
        let left = self.boats[len - 1] - 1;
        self.boats.set(len - 1, left);
        let ghost before = self.cells();
        let mut i: usize = 0;
        while i < len
            invariant
                self.wf(),
                before == old(self).cells(),
                self.spec_boats() == old(self).spec_boats().update(
                    len - 1,
                    (old(self).spec_boats()[len - 1] - 1) as u8,
                ),
                len == boat_len(boat),
                fits(boat, pos),
                i <= len,
                forall|rr: int, cc: int|
                    on_board(rr, cc) ==> #[trigger] self.cells()[cell_index(rr, cc)] == if on_boat(
                        boat,
                        pos,
                        rr,
                        cc,
                    ) && (match boat {
                        Boat::Vertical(_) => rr < pos.0 + i,
                        Boat::Horizontal(_) => cc < pos.1 + i,
                    }) {
                        1u8
                    } else {
                        before[cell_index(rr, cc)]
                    },
            decreases len - i,
        {
            let idx = match boat {
                Boat::Vertical(_) => (pos.0 + i) * BSIZE + pos.1,
                Boat::Horizontal(_) => pos.0 * BSIZE + pos.1 + i,
            };
            proof {
                assert forall|rr: int, cc: int|
                    on_board(rr, cc) && cell_index(rr, cc) == idx implies (match boat {
                        Boat::Vertical(_) => rr == pos.0 + i && cc == pos.1,
                        Boat::Horizontal(_) => rr == pos.0 && cc == pos.1 + i,
                    }) by {
                    match boat {
                        Boat::Vertical(_) => {
                            assert(cell_index(rr, cc) == cell_index(pos.0 + i, pos.1 as int));
                            lemma_cell_index_injective(rr, cc, pos.0 + i, pos.1 as int);
                        },
                        Boat::Horizontal(_) => {
                            lemma_cell_index_injective(rr, cc, pos.0 as int, pos.1 + i);
                        },
                    }
                }
            }
            self.data.set(idx, 1);
            i = i + 1;
        }
        Ok(())
    }

    /// The board as text: the four counts separated by spaces on the first
    /// line, then one line per row with a space for an empty cell and `B`
    /// for a boat cell.
    pub fn to_string(&self) -> (r: String)
        requires
            self.wf(),
        ensures
            r@ == board_text(self.spec_boats(), self.cells()),
    {
        let mut out: Vec<char> = Vec::new();
        push_digits(&mut out, self.boats[0] as u32);
        out.push(' ');
        push_digits(&mut out, self.boats[1] as u32);
        out.push(' ');
        push_digits(&mut out, self.boats[2] as u32);
        out.push(' ');
        push_digits(&mut out, self.boats[3] as u32);
        out.push('\n');
        let ghost head = out@;
        let mut r: usize = 0;
        while r < BSIZE
            invariant
                self.wf(),
                r <= BSIZE,
                out@ == head + rows_text(self.cells(), r as nat),
            decreases BSIZE - r,
        {
            let ghost before = out@;
            let mut c: usize = 0;
            while c < BSIZE
                invariant
                    self.wf(),
                    r < BSIZE,
                    c <= BSIZE,
                    out@ == before + row_text(self.cells(), r as int).take(c as int),
                decreases BSIZE - c,
            {
                if self.data[r * BSIZE + c] == 0 {
                    out.push(' ');
                } else {
                    out.push('B');
                }
                c = c + 1;
                assert(out@ =~= before + row_text(self.cells(), r as int).take(c as int));
            }
            out.push('\n');
            assert(row_text(self.cells(), r as int).take(BSIZE as int) =~= row_text(
                self.cells(),
                r as int,
            ));
            r = r + 1;
            assert(out@ =~= head + rows_text(self.cells(), r as nat));
        }
        assert(out@ =~= board_text(self.spec_boats(), self.cells()));
        string_of_chars(&out)
    }
}

/// Reads a boat given as its length, 1 to 4, followed by `V` (vertical)
/// or `H` (horizontal), as in `3V`.
pub fn boat_value_parser(s: &str) -> (r: Result<(usize, char), String>)
    ensures
        match boat_arg(s@) {
            Some(b) => r == Ok::<(usize, char), String>(b),
            None => r.is_err(),
        },
{
    let t = chars_of(s);
    let n = t.len();
    if n > 0 {
        let c = t[n - 1];
        if c == 'V' || c == 'H' {
            let d = t[0];
            if '1' <= d && d <= '4' {
                return Ok(((d as u32 - '0' as u32) as usize, c));
            }
        }
    }
    Err("\x1b[31mValore errato!\x1b[0m. Per favore inserisci un valore tra 1 e 4 seguito da V o H.".to_string())
}

/// Reads four counts from 0 to 255 separated by commas, as in `4,3,2,1`.
pub fn boats_value_parser(s: &str) -> (r: Result<Vec<u8>, String>)
    ensures
        boats_arg_ok(s@) <==> r.is_ok(),
        r matches Ok(v) ==> v@.len() == 4 && forall|k: int|
            0 <= k < 4 ==> #[trigger] v@[k] as nat == parse_unsigned(split_on(s@, ',')[k], 255)->0,
{
    let t = chars_of(s);
    let parts = split_chars(&t, ',');
    if parts.len() != 4 {
        return Err("\x1b[31mValori errati!\x1b[0m Devi inserire 4 valori u8 separati da una virgola.".to_string());
    }
    let mut boats: Vec<u8> = Vec::new();
    let mut i: usize = 0;
    while i < 4
        invariant
            parts@.len() == 4,
            split_on(s@, ',').len() == 4,
            forall|k: int| 0 <= k < 4 ==> (#[trigger] parts@[k])@ == split_on(s@, ',')[k],
            i <= 4,
            boats@.len() == i,
            forall|k: int|
                0 <= k < i ==> #[trigger] parse_unsigned(split_on(s@, ',')[k], 255) is Some,
            forall|k: int|
                0 <= k < i ==> #[trigger] boats@[k] == parse_unsigned(split_on(s@, ',')[k], 255)->0 as u8,
        decreases 4 - i,
    {
        assert(parts@[i as int]@ == split_on(s@, ',')[i as int]);
        match parse_unsigned_chars(&parts[i], 255) {
            Some(v) => {
                assert(parse_unsigned(split_on(s@, ',')[i as int], 255) == Some(v as nat));
                let b: u8 = v as u8;
                boats.push(b);
            },
            None => {
                return Err("\x1b[31mValori errati!\x1b[0m Devi inserire 4 valori u8 separati da una virgola.".to_string());
            },
        }
        i = i + 1;
    }
    assert forall|k: int| 0 <= k < 4 implies #[trigger] boats@[k] as nat == parse_unsigned(
        split_on(s@, ',')[k],
        255,
    )->0 by {
        assert(parse_unsigned(split_on(s@, ',')[k], 255) is Some);
    }
    Ok(boats)
}

/// Reads a position given as row and column separated by a comma, as in
/// `3,5`.
pub fn start_value_parser(s: &str) -> (r: Result<(usize, usize), String>)
    ensures
        start_arg_ok(s@) <==> r.is_ok(),
        r matches Ok((row, col)) ==> row as nat == parse_unsigned(split_on(s@, ',')[0], usize::MAX as nat)->0
            && col as nat == parse_unsigned(split_on(s@, ',')[1], usize::MAX as nat)->0,
{
    let t = chars_of(s);
    let parts = split_chars(&t, ',');
    if parts.len() == 2 {
        match (parse_unsigned_chars(&parts[0], usize::MAX as u64), parse_unsigned_chars(&parts[1], usize::MAX as u64)) {
            (Some(row), Some(col)) => {
                return Ok((row as usize, col as usize));
            },
            _ => {},
        }
    }
    Err("\x1b[31mValori errati!\x1b[0m. Per favore inserisci due u8 separati da virgola.".to_string())
}

proof fn lemma_cell_index_injective(r1: int, c1: int, r2: int, c2: int)
    requires
        0 <= c1 < BSIZE,
        0 <= c2 < BSIZE,
        cell_index(r1, c1) == cell_index(r2, c2),
    ensures
        r1 == r2 && c1 == c2,
{
}

} // verus!
