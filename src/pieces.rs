use vstd::prelude::*;
use crate::board::{cell, Board, Coord};
use crate::moves::{in_bounds, is_coordinate_in_bounds};

verus! {

/// The kind of a piece; `Empty` marks a cell without a piece.
#[derive(Clone, Copy, Debug, PartialEq, Eq, Structural)]
pub enum PieceType {
    Pawn,
    Knight,
    Bishop,
    Rook,
    Queen,
    King,
    Empty,
}

/// The side a piece belongs to; `Empty` marks a cell without a piece.
#[derive(Clone, Copy, Debug, PartialEq, Eq, Structural)]
pub enum PieceColor {
    White,
    Black,
    Empty,
}

/// The content of a cell: a piece type together with its color.
#[derive(Clone, Copy, Debug, PartialEq, Eq, Structural)]
pub struct ChessPiece {
    pub piece_type: PieceType,
    pub color: PieceColor,
}

/// A piece together with the cell (row `x`, column `y`) it stands on.
#[derive(Clone, Copy, Debug, PartialEq, Eq, Structural)]
pub struct Piece {
    pub x: usize,
    pub y: usize,
    pub piece: ChessPiece,
}

/// The cell of `p` as a coordinate.
pub open spec fn position(p: Piece) -> Coord {
    (p.x, p.y)
}

/// Cell `p` is on the board and holds a piece of color `color`.
pub open spec fn holds_color(b: Board, color: PieceColor, p: Coord) -> bool {
    &&& in_bounds(p)
    &&& cell(b, p) is Some
    &&& cell(b, p).unwrap().color == color
}

/// The pieces of color `color` among the first `j` cells of row `i`.
pub open spec fn row_pieces(b: Board, color: PieceColor, i: int, j: int) -> Seq<Piece>
    decreases j,
{
    if j <= 0 {
        seq![]
    } else {
        let prev = row_pieces(b, color, i, j - 1);
        let p: Coord = (i as usize, (j - 1) as usize);
        if holds_color(b, color, p) {
            prev.push(Piece { x: p.0, y: p.1, piece: cell(b, p).unwrap() })
        } else {
            prev
        }
    }
}

/// The pieces of color `color` in the first `i` rows, row by row.
pub open spec fn rows_pieces(b: Board, color: PieceColor, i: int) -> Seq<Piece>
    decreases i,
{
    if i <= 0 {
        seq![]
    } else {
        rows_pieces(b, color, i - 1) + row_pieces(b, color, i - 1, 11)
    }
}

/// The pieces of color `color` on the board, in row-major order.
pub open spec fn all_pieces(b: Board, color: PieceColor) -> Seq<Piece> {
    rows_pieces(b, color, 11)
}

proof fn lemma_row_pieces(b: Board, color: PieceColor, i: int, j: int)
    requires
        0 <= i < 11,
        0 <= j <= 11,
    ensures
        forall|k: int|
            0 <= k < row_pieces(b, color, i, j).len() ==> {
                let q = #[trigger] row_pieces(b, color, i, j)[k];
                &&& holds_color(b, color, position(q))
                &&& cell(b, position(q)) == Some(q.piece)
                &&& q.x == i
                &&& q.y < j
            },
    decreases j,
{
    if j > 0 {
        lemma_row_pieces(b, color, i, j - 1);
    }
}

proof fn lemma_rows_pieces(b: Board, color: PieceColor, i: int)
    requires
        0 <= i <= 11,
    ensures
        forall|k: int|
            0 <= k < rows_pieces(b, color, i).len() ==> {
                let q = #[trigger] rows_pieces(b, color, i)[k];
                &&& holds_color(b, color, position(q))
                &&& cell(b, position(q)) == Some(q.piece)
                &&& q.x < i
            },
    decreases i,
{
    if i > 0 {
        lemma_rows_pieces(b, color, i - 1);
        lemma_row_pieces(b, color, i - 1, 11);
        let prev = rows_pieces(b, color, i - 1);
        let row = row_pieces(b, color, i - 1, 11);
        assert forall|k: int| 0 <= k < rows_pieces(b, color, i).len() implies {
            let q = #[trigger] rows_pieces(b, color, i)[k];
            &&& holds_color(b, color, position(q))
            &&& cell(b, position(q)) == Some(q.piece)
            &&& q.x < i
        } by {
            if k >= prev.len() {
                assert(rows_pieces(b, color, i)[k] == row[k - prev.len()]);
            } else {
                assert(rows_pieces(b, color, i)[k] == prev[k]);
            }
        }
    }
}

/// Every entry of `all_pieces(b, color)` stands on an on-board cell that
/// holds exactly that piece, of color `color`.
pub proof fn lemma_all_pieces_on_board(b: Board, color: PieceColor)
    ensures
        forall|k: int|
            0 <= k < all_pieces(b, color).len() ==> {
                let q = #[trigger] all_pieces(b, color)[k];
                &&& holds_color(b, color, position(q))
                &&& cell(b, position(q)) == Some(q.piece)
            },
{
    lemma_rows_pieces(b, color, 11);
}

/// The pieces of color `check_color` on `board`, in row-major order.
pub fn get_all_pieces(board: &Board, check_color: PieceColor) -> (r: Vec<Piece>)
    ensures
        r@ == all_pieces(*board, check_color),
{
    let mut pieces: Vec<Piece> = Vec::new();
    let mut i: usize = 0;
    while i < 11
        invariant
            i <= 11,
            pieces@ == rows_pieces(*board, check_color, i as int),
        decreases 11 - i,
    {
        let ghost before = pieces@;
        let mut j: usize = 0;
        while j < 11
            invariant
                i < 11,
                j <= 11,
                before == rows_pieces(*board, check_color, i as int),
                pieces@ == before + row_pieces(*board, check_color, i as int, j as int),
            decreases 11 - j,
        {
            let p: Coord = (i, j);
            if is_coordinate_in_bounds(&p) {
                if let Some(q) = board.0[i][j] {
                    if q.color == check_color {
                        pieces.push(Piece { x: i, y: j, piece: q });
                    }
                }
            }
            assert(pieces@ =~= before + row_pieces(*board, check_color, i as int, j + 1));
            j = j + 1;
        }
        i = i + 1;
    }
    pieces
}

} // verus!
