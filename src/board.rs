use vstd::prelude::*;
use vstd::string::StrSliceExecFns;
use vstd::array::spec_array_update;
use crate::pieces::{ChessPiece, PieceColor, PieceType};

verus! {

/// A (row, column) pair.
pub type Coord = (usize, usize);

/// The 11 by 11 grid of cells, indexed by row and then column.
#[derive(Clone, Copy, Debug, PartialEq, Eq)]
pub struct Board(pub [[Option<ChessPiece>; 11]; 11]);

/// The content of cell `p`.
pub open spec fn cell(b: Board, p: Coord) -> Option<ChessPiece> {
    b.0[p.0 as int][p.1 as int]
}

/// The cell content without a piece.
pub open spec fn no_piece() -> ChessPiece {
    ChessPiece { piece_type: PieceType::Empty, color: PieceColor::Empty }
}

/// The piece on `p`; a cell that holds nothing reads as `no_piece()`.
pub open spec fn piece_at(b: Board, p: Coord) -> ChessPiece {
    match cell(b, p) {
        Some(q) => q,
        None => no_piece(),
    }
}

/// The color of the piece on `p` (`Empty` when there is none).
pub open spec fn color_at(b: Board, p: Coord) -> PieceColor {
    piece_at(b, p).color
}

/// Reads cell `p`, with a cell that holds nothing read as `no_piece()`.
pub fn get_piece(b: &Board, p: Coord) -> (r: ChessPiece)
    requires
        p.0 < 11,
        p.1 < 11,
    ensures
        r == piece_at(*b, p),
{
    match b.0[p.0][p.1] {
        Some(q) => q,
        None => ChessPiece { piece_type: PieceType::Empty, color: PieceColor::Empty },
    }
}

/// `b` with cell `p` replaced by `v`.
pub open spec fn with_cell(b: Board, p: Coord, v: Option<ChessPiece>) -> Board {
    Board(spec_array_update(b.0, p.0 as int, spec_array_update(b.0[p.0 as int], p.1 as int, v)))
}

/// Writes `v` into cell `p`.
pub fn set_piece(b: &mut Board, p: Coord, v: Option<ChessPiece>)
    requires
        p.0 < 11,
        p.1 < 11,
    ensures
        *final(b) == with_cell(*old(b), p, v),
{
    b.0[p.0][p.1] = v;
    assert(b.0 =~= with_cell(*old(b), p, v).0);
}

/// Reading a cell of `with_cell(b, p, v)`.
pub proof fn lemma_with_cell(b: Board, p: Coord, v: Option<ChessPiece>, q: Coord)
    requires
        p.0 < 11,
        p.1 < 11,
        q.0 < 11,
        q.1 < 11,
    ensures
        cell(with_cell(b, p, v), q) == if q == p { v } else { cell(b, q) },
{
}

/// The (row, column) pair packed in `v`: the row in bits 4 to 7, the column
/// in bits 0 to 3.
pub open spec fn decoded(v: usize) -> Coord {
    ((v & 0xF0) >> 4, v & 0x0F)
}

/// Splits a position byte into (row, column): the row is the high nibble of
/// the low byte and the column the low nibble.
pub fn decode_coordinates_bitwise(encoded_value: usize) -> (r: Coord)
    ensures
        r == decoded(encoded_value),
{
    let x = (encoded_value & 0xF0) >> 4;
    let y = encoded_value & 0x0F;
    (x, y)
}

/// Decoding the byte `row * 16 + col` gives back `(row, col)` for every row
/// and column below 16.
pub proof fn lemma_decode_round_trip(row: usize, col: usize)
    requires
        row < 16,
        col < 16,
    ensures
        decoded((row * 16 + col) as usize) == (row, col),
{
    let v = (row * 16 + col) as usize;
    assert(((v & 0xF0) >> 4) == row && (v & 0x0F) == col) by (bit_vector)
        requires
            row < 16,
            col < 16,
            v == row * 16 + col,
    ;
}

/// The piece type written by letter `c`; any other letter stands for a pawn.
pub open spec fn type_of_code(c: char) -> PieceType {
    if c == 'B' {
        PieceType::Bishop
    } else if c == 'K' {
        PieceType::King
    } else if c == 'N' {
        PieceType::Knight
    } else if c == 'Q' {
        PieceType::Queen
    } else if c == 'R' {
        PieceType::Rook
    } else {
        PieceType::Pawn
    }
}

/// The color written by letter `c`: `B` is black, anything else white.
pub open spec fn color_of_code(c: char) -> PieceColor {
    if c == 'B' {
        PieceColor::Black
    } else {
        PieceColor::White
    }
}

/// The piece written by the color letter `c0` and the type letter `c1`.
pub open spec fn piece_of_code(c0: char, c1: char) -> ChessPiece {
    ChessPiece { piece_type: type_of_code(c1), color: color_of_code(c0) }
}

pub(crate) fn piece_from_code(c0: char, c1: char) -> (r: ChessPiece)
    ensures
        r == piece_of_code(c0, c1),
{
    let piece_type = match c1 {
        'B' => PieceType::Bishop,
        'K' => PieceType::King,
        'N' => PieceType::Knight,
        'Q' => PieceType::Queen,
        'R' => PieceType::Rook,
        _ => PieceType::Pawn,
    };
    let color = match c0 {
        'B' => PieceColor::Black,
        _ => PieceColor::White,
    };
    ChessPiece { piece_type, color }
}

/// Reads a two-letter piece code: the color letter (`W` or `B`) and then the
/// type letter (`P`, `N`, `B`, `R`, `Q` or `K`).
pub fn decode_piece(piece_code: &str) -> (r: Option<ChessPiece>)
    requires
        piece_code@.len() >= 2,
    ensures
        r == Some(piece_of_code(piece_code@[0], piece_code@[1])),
{
    Some(piece_from_code(piece_code.get_char(0), piece_code.get_char(1)))
}

/// Every cell of `b` is empty.
pub open spec fn is_blank(b: Board) -> bool {
    forall|r: int, c: int| 0 <= r < 11 && 0 <= c < 11 ==> #[trigger] b.0[r][c] == Some(no_piece())
}

/// The board whose cells are all empty.
pub open spec fn blank_board() -> Board {
    choose|b: Board| is_blank(b)
}

/// A board with every cell empty.
pub fn empty_board() -> (b: Board)
    ensures
        b == blank_board(),
{
    let e = Some(ChessPiece { piece_type: PieceType::Empty, color: PieceColor::Empty });
    let b = Board([[e; 11]; 11]);
    proof {
        assert(is_blank(b));
        let other = blank_board();
        assert forall|r: int| 0 <= r < 11 implies #[trigger] other.0[r] =~= b.0[r] by {
            assert forall|c: int| 0 <= c < 11 implies other.0[r][c] == b.0[r][c] by {
                assert(other.0[r][c] == Some(no_piece()));
            }
        }
        assert(other.0 =~= b.0);
    }
    b
}

/// The piece that starts on cell `(r, c)`.
pub open spec fn start_piece(r: int, c: int) -> ChessPiece {
    if (r == 0 && c == 9) || (r == 1 && c == 8) || (r == 2 && c == 7) || (r == 3 && c == 6) || (r == 4 && c == 5) || (r == 4 && c == 4) || (r == 4 && c == 3) || (r == 4 && c == 2) || (r == 4 && c == 1) {
        ChessPiece { piece_type: PieceType::Pawn, color: PieceColor::Black }
    } else if (r == 6 && c == 9) || (r == 6 && c == 8) || (r == 6 && c == 7) || (r == 6 && c == 6) || (r == 6 && c == 5) || (r == 7 && c == 4) || (r == 8 && c == 3) || (r == 9 && c == 2) || (r == 10 && c == 1) {
        ChessPiece { piece_type: PieceType::Pawn, color: PieceColor::White }
    } else if (r == 0 && c == 7) || (r == 2 && c == 3) {
        ChessPiece { piece_type: PieceType::Knight, color: PieceColor::Black }
    } else if (r == 8 && c == 7) || (r == 10 && c == 3) {
        ChessPiece { piece_type: PieceType::Knight, color: PieceColor::White }
    } else if (r == 0 && c == 8) || (r == 3 && c == 2) {
        ChessPiece { piece_type: PieceType::Rook, color: PieceColor::Black }
    } else if (r == 7 && c == 8) || (r == 10 && c == 2) {
        ChessPiece { piece_type: PieceType::Rook, color: PieceColor::White }
    } else if (r == 0 && c == 6) {
        ChessPiece { piece_type: PieceType::Queen, color: PieceColor::Black }
    } else if (r == 9 && c == 6) {
        ChessPiece { piece_type: PieceType::Queen, color: PieceColor::White }
    } else if (r == 1 && c == 4) {
        ChessPiece { piece_type: PieceType::King, color: PieceColor::Black }
    } else if (r == 10 && c == 4) {
        ChessPiece { piece_type: PieceType::King, color: PieceColor::White }
    } else if (r == 0 && c == 5) || (r == 1 && c == 5) || (r == 2 && c == 5) {
        ChessPiece { piece_type: PieceType::Bishop, color: PieceColor::Black }
    } else if (r == 8 && c == 5) || (r == 9 && c == 5) || (r == 10 && c == 5) {
        ChessPiece { piece_type: PieceType::Bishop, color: PieceColor::White }
    } else {
        ChessPiece { piece_type: PieceType::Empty, color: PieceColor::Empty }
    }
}

/// Every cell of `b` holds its starting piece.
pub open spec fn is_start_board(b: Board) -> bool {
    forall|r: int, c: int| 0 <= r < 11 && 0 <= c < 11 ==> #[trigger] b.0[r][c] == Some(start_piece(r, c))
}

fn start_piece_at(r: usize, c: usize) -> (q: ChessPiece)
    ensures
        q == start_piece(r as int, c as int),
{
    if (r == 0 && c == 9) || (r == 1 && c == 8) || (r == 2 && c == 7) || (r == 3 && c == 6) || (r == 4 && c == 5) || (r == 4 && c == 4) || (r == 4 && c == 3) || (r == 4 && c == 2) || (r == 4 && c == 1) {
        ChessPiece { piece_type: PieceType::Pawn, color: PieceColor::Black }
    } else if (r == 6 && c == 9) || (r == 6 && c == 8) || (r == 6 && c == 7) || (r == 6 && c == 6) || (r == 6 && c == 5) || (r == 7 && c == 4) || (r == 8 && c == 3) || (r == 9 && c == 2) || (r == 10 && c == 1) {
        ChessPiece { piece_type: PieceType::Pawn, color: PieceColor::White }
    } else if (r == 0 && c == 7) || (r == 2 && c == 3) {
        ChessPiece { piece_type: PieceType::Knight, color: PieceColor::Black }
    } else if (r == 8 && c == 7) || (r == 10 && c == 3) {
        ChessPiece { piece_type: PieceType::Knight, color: PieceColor::White }
    } else if (r == 0 && c == 8) || (r == 3 && c == 2) {
        ChessPiece { piece_type: PieceType::Rook, color: PieceColor::Black }
    } else if (r == 7 && c == 8) || (r == 10 && c == 2) {
        ChessPiece { piece_type: PieceType::Rook, color: PieceColor::White }
    } else if (r == 0 && c == 6) {
        ChessPiece { piece_type: PieceType::Queen, color: PieceColor::Black }
    } else if (r == 9 && c == 6) {
        ChessPiece { piece_type: PieceType::Queen, color: PieceColor::White }
    } else if (r == 1 && c == 4) {
        ChessPiece { piece_type: PieceType::King, color: PieceColor::Black }
    } else if (r == 10 && c == 4) {
        ChessPiece { piece_type: PieceType::King, color: PieceColor::White }
    } else if (r == 0 && c == 5) || (r == 1 && c == 5) || (r == 2 && c == 5) {
        ChessPiece { piece_type: PieceType::Bishop, color: PieceColor::Black }
    } else if (r == 8 && c == 5) || (r == 9 && c == 5) || (r == 10 && c == 5) {
        ChessPiece { piece_type: PieceType::Bishop, color: PieceColor::White }
    } else {
        ChessPiece { piece_type: PieceType::Empty, color: PieceColor::Empty }
    }
}

/// The starting position: each side has nine pawns, two knights, two rooks,
/// three bishops, a queen and a king; every other cell is empty.
pub fn get_default_board() -> (b: Board)
    ensures
        is_start_board(b),
{
    let mut board = empty_board();
    let mut i: usize = 0;
    while i < 11
        invariant
            i <= 11,
            forall|r: int, c: int|
                0 <= r < i && 0 <= c < 11 ==> #[trigger] board.0[r][c] == Some(start_piece(r, c)),
        decreases 11 - i,
    {
        let mut j: usize = 0;
        while j < 11
            invariant
                i < 11,
                j <= 11,
                forall|r: int, c: int|
                    0 <= r < 11 && 0 <= c < 11 && (r < i || (r == i && c < j)) ==> #[trigger] board.0[r][c]
                        == Some(start_piece(r, c)),
            decreases 11 - j,
        {
            let ghost before = board;
            set_piece(&mut board, (i, j), Some(start_piece_at(i, j)));
            assert forall|r: int, c: int|
                0 <= r < 11 && 0 <= c < 11 && (r < i || (r == i && c < j + 1)) implies #[trigger] board.0[r][c]
                    == Some(start_piece(r, c)) by {
                lemma_with_cell(before, (i, j), Some(start_piece(i as int, j as int)), (r as usize, c as usize));
            }
            j = j + 1;
        }
        i = i + 1;
    }
    board
}

} // verus!
