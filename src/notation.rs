//! The textual position format: `;`-separated entries `code:piece`, where
//! `code` is a decimal number whose low byte holds the row in its high nibble
//! and the column in its low nibble, and `piece` a two-letter piece code.
//! Whitespace is ignored, and entries that are not a pair of two non-empty
//! fields around a single `:` are skipped.
use vstd::prelude::*;
use crate::board::{
    blank_board, decode_coordinates_bitwise, decoded, empty_board, piece_from_code, piece_of_code,
    set_piece, with_cell, Board,
};

verus! {

/// The byte `;`, which ends an entry.
pub const ENTRY_SEPARATOR: u8 = 59;

/// The byte `:`, which parts the cell code from the piece code.
pub const FIELD_SEPARATOR: u8 = 58;

/// Why a position text cannot be read.
#[derive(Clone, Copy, Debug, PartialEq, Eq, Structural)]
pub enum NotationError {
    /// A cell code is not a decimal number that fits in `usize`.
    InvalidNumber,
    /// A piece code has fewer than two letters.
    ShortPieceCode,
    /// A cell code names a cell outside the 11 by 11 grid.
    OffGrid,
}

/// Space, tab, line feed or carriage return.
pub open spec fn is_space(c: u8) -> bool {
    c == 32 || c == 9 || c == 10 || c == 13
}

/// `s` without its whitespace bytes.
pub open spec fn strip_spaces(s: Seq<u8>) -> Seq<u8>
    decreases s.len(),
{
    if s.len() == 0 {
        s
    } else if is_space(s.last()) {
        strip_spaces(s.drop_last())
    } else {
        strip_spaces(s.drop_last()).push(s.last())
    }
}

/// The pieces of `s` between the separators `sep`: one more piece than
/// there are separators, some of them possibly empty.
pub open spec fn split(s: Seq<u8>, sep: u8) -> Seq<Seq<u8>>
    decreases s.len(),
{
    if s.len() == 0 {
        seq![seq![]]
    } else {
        let prev = split(s.drop_last(), sep);
        if s.last() == sep {
            prev.push(seq![])
        } else {
            prev.update(prev.len() - 1, prev.last().push(s.last()))
        }
    }
}

/// An ASCII decimal digit.
pub open spec fn is_digit(c: u8) -> bool {
    48 <= c <= 57
}

/// The value of the decimal digits `s`.
pub open spec fn digits_value(s: Seq<u8>) -> int
    decreases s.len(),
{
    if s.len() == 0 {
        0
    } else {
        digits_value(s.drop_last()) * 10 + (s.last() - 48)
    }
}

/// `s` is a decimal number that fits in `usize`.
pub open spec fn valid_number(s: Seq<u8>) -> bool {
    &&& forall|i: int| 0 <= i < s.len() ==> is_digit(#[trigger] s[i])
    &&& digits_value(s) <= usize::MAX
}

/// What entry `e` does to board `b`: an entry that is not a pair of two
/// non-empty fields leaves it as it is; a pair puts the coded piece on the
/// coded cell, or fails.
pub open spec fn apply_entry(b: Board, e: Seq<u8>) -> Result<Board, NotationError> {
    let fields = split(e, FIELD_SEPARATOR);
    if fields.len() != 2 || fields[0].len() == 0 || fields[1].len() == 0 {
        Ok(b)
    } else if !valid_number(fields[0]) {
        Err(NotationError::InvalidNumber)
    } else if fields[1].len() < 2 {
        Err(NotationError::ShortPieceCode)
    } else {
        let p = decoded(digits_value(fields[0]) as usize);
        if p.0 >= 11 || p.1 >= 11 {
            Err(NotationError::OffGrid)
        } else {
            Ok(
                with_cell(
                    b,
                    p,
                    Some(piece_of_code(fields[1][0] as char, fields[1][1] as char)),
                ),
            )
        }
    }
}

/// The entries `es` applied in order, stopping at the first failure.
pub open spec fn apply_entries(b: Board, es: Seq<Seq<u8>>) -> Result<Board, NotationError>
    decreases es.len(),
{
    if es.len() == 0 {
        Ok(b)
    } else {
        match apply_entries(b, es.drop_last()) {
            Ok(prev) => apply_entry(prev, es.last()),
            Err(e) => Err(e),
        }
    }
}

/// The position written in `text`, placed on an empty board.
pub open spec fn position_of(text: Seq<u8>) -> Result<Board, NotationError> {
    apply_entries(blank_board(), split(strip_spaces(text), ENTRY_SEPARATOR))
}

fn strip(text: &[u8]) -> (r: Vec<u8>)
    ensures
        r@ == strip_spaces(text@),
{
    let mut out: Vec<u8> = Vec::new();
    let mut i: usize = 0;
    while i < text.len()
        invariant
            i <= text@.len(),
            out@ == strip_spaces(text@.subrange(0, i as int)),
        decreases text.len() - i,
    {
        let c = text[i];
        if !(c == 32 || c == 9 || c == 10 || c == 13) {
            out.push(c);
        }
        assert(text@.subrange(0, i + 1).drop_last() =~= text@.subrange(0, i as int));
        i = i + 1;
    }
    assert(text@.subrange(0, text@.len() as int) =~= text@);
    out
}

/// The bounds of the pieces of `s[start..end]` between separators `sep`.
fn split_ranges(s: &Vec<u8>, start: usize, end: usize, sep: u8) -> (r: Vec<(usize, usize)>)
    requires
        start <= end <= s@.len(),
    ensures
        r@.len() == split(s@.subrange(start as int, end as int), sep).len(),
        forall|k: int|
            0 <= k < r@.len() ==> {
                &&& start <= (#[trigger] r@[k]).0 <= r@[k].1 <= end
                &&& s@.subrange(r@[k].0 as int, r@[k].1 as int) == split(
                    s@.subrange(start as int, end as int),
                    sep,
                )[k]
            },
{
    let mut ranges: Vec<(usize, usize)> = Vec::new();
    let mut piece_start = start;
    let mut i = start;
    while i < end
        invariant
            start <= piece_start <= i <= end <= s@.len(),
            ranges@.len() + 1 == split(s@.subrange(start as int, i as int), sep).len(),
            forall|k: int|
                0 <= k < ranges@.len() ==> {
                    &&& start <= (#[trigger] ranges@[k]).0 <= ranges@[k].1 <= i
                    &&& s@.subrange(ranges@[k].0 as int, ranges@[k].1 as int) == split(
                        s@.subrange(start as int, i as int),
                        sep,
                    )[k]
                },
            split(s@.subrange(start as int, i as int), sep).last() == s@.subrange(
                piece_start as int,
                i as int,
            ),
        decreases end - i,
    {
        let ghost before = split(s@.subrange(start as int, i as int), sep);
        assert(s@.subrange(start as int, i + 1).drop_last() =~= s@.subrange(start as int, i as int));
        if s[i] == sep {
            ranges.push((piece_start, i));
            piece_start = i + 1;
            assert(s@.subrange(piece_start as int, i + 1) =~= Seq::<u8>::empty());
        } else {
            assert(s@.subrange(piece_start as int, i + 1) =~= s@.subrange(
                piece_start as int,
                i as int,
            ).push(s@[i as int]));
        }
        i = i + 1;
    }
    ranges.push((piece_start, end));
    ranges
}

proof fn lemma_digits_prefix(s: Seq<u8>, n: int)
    requires
        0 <= n <= s.len(),
        forall|i: int| 0 <= i < s.len() ==> is_digit(#[trigger] s[i]),
    ensures
        0 <= digits_value(s.subrange(0, n)) <= digits_value(s),
    decreases s.len(),
{
    if n < s.len() {
        lemma_digits_prefix(s.drop_last(), n);
        assert(s.drop_last().subrange(0, n) =~= s.subrange(0, n));
    } else {
        assert(s.subrange(0, n) =~= s);
        if s.len() > 0 {
            lemma_digits_prefix(s.drop_last(), n - 1);
            assert(s.drop_last().subrange(0, n - 1) =~= s.drop_last());
        }
    }
}

/// The number written by the digits `s[start..end]`, if they are digits and
/// it fits.
fn parse_number(s: &Vec<u8>, start: usize, end: usize) -> (r: Option<usize>)
    requires
        start <= end <= s@.len(),
    ensures
        match r {
            Some(v) => valid_number(s@.subrange(start as int, end as int)) && v == digits_value(
                s@.subrange(start as int, end as int),
            ),
            None => !valid_number(s@.subrange(start as int, end as int)),
        },
{
    let ghost text = s@.subrange(start as int, end as int);
    let mut value: usize = 0;
    let mut i = start;
    while i < end
        invariant
            start <= i <= end <= s@.len(),
            text == s@.subrange(start as int, end as int),
            forall|k: int| 0 <= k < i - start ==> is_digit(#[trigger] text[k]),
            value == digits_value(text.subrange(0, i - start)),
        decreases end - i,
    {
        let c = s[i];
        assert(c == text[i - start]);
        if !(48 <= c && c <= 57) {
            return None;
        }
        assert(text.subrange(0, i + 1 - start).drop_last() =~= text.subrange(0, i - start));
        let next = match value.checked_mul(10) {
            Some(v) => v.checked_add((c - 48) as usize),
            None => None,
        };
        match next {
            Some(v) => {
                value = v;
            },
            None => {
                proof {
                    if forall|k: int| 0 <= k < text.len() ==> is_digit(#[trigger] text[k]) {
                        lemma_digits_prefix(text, i + 1 - start);
                    }
                }
                return None;
            },
        }
        i = i + 1;
    }
    assert(text.subrange(0, end - start) =~= text);
    Some(value)
}

/// Applies the entry `s[start..end]` to `board`.
fn read_entry(board: Board, s: &Vec<u8>, start: usize, end: usize) -> (r: Result<
    Board,
    NotationError,
>)
    requires
        start <= end <= s@.len(),
    ensures
        r == apply_entry(board, s@.subrange(start as int, end as int)),
{
    let ghost e = s@.subrange(start as int, end as int);
    let fields = split_ranges(s, start, end, FIELD_SEPARATOR);
    if fields.len() != 2 {
        return Ok(board);
    }
    let (a0, z0) = fields[0];
    let (a1, z1) = fields[1];
    assert(s@.subrange(a0 as int, z0 as int) == split(e, FIELD_SEPARATOR)[0]);
    assert(s@.subrange(a1 as int, z1 as int) == split(e, FIELD_SEPARATOR)[1]);
    if z0 == a0 || z1 == a1 {
        return Ok(board);
    }
    let value = match parse_number(s, a0, z0) {
        Some(v) => v,
        None => return Err(NotationError::InvalidNumber),
    };
    if z1 - a1 < 2 {
        return Err(NotationError::ShortPieceCode);
    }
    let p = decode_coordinates_bitwise(value);
    if p.0 >= 11 || p.1 >= 11 {
        return Err(NotationError::OffGrid);
    }
    let piece = piece_from_code(s[a1] as char, s[a1 + 1] as char);
    let mut out = board;
    set_piece(&mut out, p, Some(piece));
    Ok(out)
}

/// Reads a position text onto an empty board.
pub fn parse_position(text: &[u8]) -> (r: Result<Board, NotationError>)
    ensures
        r == position_of(text@),
{
    let clean = strip(text);
    let entries = split_ranges(&clean, 0, clean.len(), ENTRY_SEPARATOR);
    let ghost pieces = split(clean@.subrange(0, clean@.len() as int), ENTRY_SEPARATOR);
    assert(clean@.subrange(0, clean@.len() as int) =~= clean@);
    let mut board = empty_board();
    let mut k: usize = 0;
    while k < entries.len()
        invariant
            k <= entries@.len(),
            entries@.len() == pieces.len(),
            pieces == split(strip_spaces(text@), ENTRY_SEPARATOR),
            forall|j: int|
                0 <= j < entries@.len() ==> {
                    &&& (#[trigger] entries@[j]).0 <= entries@[j].1 <= clean@.len()
                    &&& clean@.subrange(entries@[j].0 as int, entries@[j].1 as int) == pieces[j]
                },
            apply_entries(blank_board(), pieces.subrange(0, k as int)) == Ok::<
                Board,
                NotationError,
            >(board),
        decreases entries.len() - k,
    {
        let (a, z) = entries[k];
        assert(pieces.subrange(0, k + 1).drop_last() =~= pieces.subrange(0, k as int));
        match read_entry(board, &clean, a, z) {
            Ok(b) => {
                board = b;
            },
            Err(e) => {
                proof {
                    lemma_failure_stays(blank_board(), pieces, k as int + 1);
                }
                return Err(e);
            },
        }
        k = k + 1;
    }
    assert(pieces.subrange(0, pieces.len() as int) =~= pieces);
    Ok(board)
}

proof fn lemma_failure_stays(b: Board, es: Seq<Seq<u8>>, n: int)
    requires
        0 <= n <= es.len(),
        apply_entries(b, es.subrange(0, n)) is Err,
    ensures
        apply_entries(b, es) == apply_entries(b, es.subrange(0, n)),
    decreases es.len() - n,
{
    if n < es.len() {
        assert(es.subrange(0, n + 1).drop_last() =~= es.subrange(0, n));
        lemma_failure_stays(b, es, n + 1);
    } else {
        assert(es.subrange(0, n) =~= es);
    }
}

} // verus!
