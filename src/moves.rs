use vstd::prelude::*;
use crate::board::{color_at, get_piece, no_piece, piece_at, set_piece, with_cell, Board, Coord};
use crate::pieces::{ChessPiece, PieceColor, PieceType};
use crate::validation::{in_check, is_check};

verus! {

/// The twelve neighbourhood directions of the hexagonal grid.
#[derive(Clone, Copy, Debug, PartialEq, Eq, Structural)]
pub enum MoveDirection {
    Up,
    Down,
    LeftUp,
    LeftDown,
    RightUp,
    RightDown,
    DiagonalLeft,
    DiagonalRight,
    DiagonalLeftUp,
    DiagonalLeftDown,
    DiagonalRightUp,
    DiagonalRightDown,
}

/// One ply: `piece` goes from `from` to `to`.
#[derive(Clone, Copy, Debug, PartialEq, Eq)]
pub struct Move {
    pub piece: ChessPiece,
    pub from: Coord,
    pub to: Coord,
}

/// The coordinate handed back for a step that would leave the grid on the
/// low side; it is never on the board.
pub const OFF_BOARD: usize = 11;

/// A cell of the playing area.
pub open spec fn in_bounds(p: Coord) -> bool {
    &&& p.0 < 11
    &&& p.1 < 11
    &&& 5 <= p.0 + p.1 <= 15
}

/// Row and column change of one step in direction `d`.
pub open spec fn direction_offset(d: MoveDirection) -> (int, int) {
    match d {
        MoveDirection::Up => (-1, 0),
        MoveDirection::Down => (1, 0),
        MoveDirection::LeftUp => (-1, 1),
        MoveDirection::LeftDown => (0, 1),
        MoveDirection::RightUp => (0, -1),
        MoveDirection::RightDown => (1, -1),
        MoveDirection::DiagonalLeft => (-1, 2),
        MoveDirection::DiagonalRight => (1, -2),
        MoveDirection::DiagonalLeftUp => (-2, 1),
        MoveDirection::DiagonalLeftDown => (1, 1),
        MoveDirection::DiagonalRightUp => (-1, -1),
        MoveDirection::DiagonalRightDown => (2, -1),
    }
}

/// `p` moved by `(dr, dc)`, or the off-board coordinate where a component
/// would become negative.
pub open spec fn shifted(p: Coord, dr: int, dc: int) -> Coord {
    if p.0 + dr >= 0 && p.1 + dc >= 0 {
        ((p.0 + dr) as usize, (p.1 + dc) as usize)
    } else {
        (OFF_BOARD, OFF_BOARD)
    }
}

/// The neighbour of `p` in direction `d`.
pub open spec fn step(d: MoveDirection, p: Coord) -> Coord {
    shifted(p, direction_offset(d).0, direction_offset(d).1)
}

/// Tells whether `coordinates` is a cell of the playing area.
pub fn is_coordinate_in_bounds(coordinates: &Coord) -> (r: bool)
    ensures
        r == in_bounds(*coordinates),
{
    let (x, y) = *coordinates;
    if x >= 11 || y >= 11 {
        return false;
    }
    5 <= x + y && x + y <= 15
}

/// The neighbour of `coordinates` in `direction`; the off-board coordinate
/// where the row or column would become negative.
pub fn get_move_coordinate(direction: MoveDirection, coordinates: &Coord) -> (r: Coord)
    requires
        coordinates.0 <= usize::MAX - 2,
        coordinates.1 <= usize::MAX - 2,
    ensures
        r == step(direction, *coordinates),
{
    let (x, y) = *coordinates;
    let fallback: Coord = (OFF_BOARD, OFF_BOARD);
    match direction {
        MoveDirection::Up => if x >= 1 { (x - 1, y) } else { fallback },
        MoveDirection::Down => (x + 1, y),
        MoveDirection::LeftUp => if x >= 1 { (x - 1, y + 1) } else { fallback },
        MoveDirection::LeftDown => (x, y + 1),
        MoveDirection::RightUp => if y >= 1 { (x, y - 1) } else { fallback },
        MoveDirection::RightDown => if y >= 1 { (x + 1, y - 1) } else { fallback },
        MoveDirection::DiagonalLeft => if x >= 1 { (x - 1, y + 2) } else { fallback },
        MoveDirection::DiagonalRight => if y >= 2 { (x + 1, y - 2) } else { fallback },
        MoveDirection::DiagonalLeftUp => if x >= 2 { (x - 2, y + 1) } else { fallback },
        MoveDirection::DiagonalLeftDown => (x + 1, y + 1),
        MoveDirection::DiagonalRightUp => if x >= 1 && y >= 1 { (x - 1, y - 1) } else { fallback },
        MoveDirection::DiagonalRightDown => if y >= 1 { (x + 2, y - 1) } else { fallback },
    }
}

/// `t` may be the destination of a piece of color `m`: an on-board cell that
/// does not hold a piece of that same color.
pub open spec fn open_for(b: Board, m: PieceColor, t: Coord) -> bool {
    &&& in_bounds(t)
    &&& !(color_at(b, t) != PieceColor::Empty && color_at(b, t) == m)
}

/// How many more steps in direction `d` can stay inside the grid from `p`;
/// it falls with every on-board step.
pub open spec fn room(d: MoveDirection, p: Coord) -> nat {
    let (dr, dc) = direction_offset(d);
    if dr < 0 {
        p.0 as nat
    } else if dr > 0 {
        if p.0 <= 11 { (11 - p.0) as nat } else { 0 }
    } else if dc > 0 {
        if p.1 <= 11 { (11 - p.1) as nat } else { 0 }
    } else {
        p.1 as nat
    }
}

/// The cells reached by a piece of color `m` sliding from `p` in direction
/// `d`: every empty cell up to the first occupied one, which is included when
/// it holds a piece of another color.
pub open spec fn ray(b: Board, m: PieceColor, d: MoveDirection, p: Coord) -> Seq<Coord>
    decreases room(d, p),
{
    let t = step(d, p);
    if !in_bounds(p) || !in_bounds(t) {
        seq![]
    } else if color_at(b, t) == PieceColor::Empty {
        seq![t] + ray(b, m, d, t)
    } else if color_at(b, t) != m {
        seq![t]
    } else {
        seq![]
    }
}

/// The cells a rook of color `color_at(b, p)` on `p` reaches.
pub open spec fn rook_moves(b: Board, p: Coord) -> Seq<Coord> {
    let m = color_at(b, p);
    ray(b, m, MoveDirection::LeftUp, p)
        + ray(b, m, MoveDirection::Up, p)
        + ray(b, m, MoveDirection::RightUp, p)
        + ray(b, m, MoveDirection::LeftDown, p)
        + ray(b, m, MoveDirection::Down, p)
        + ray(b, m, MoveDirection::RightDown, p)
}

/// The cells a bishop of color `color_at(b, p)` on `p` reaches.
pub open spec fn bishop_moves(b: Board, p: Coord) -> Seq<Coord> {
    let m = color_at(b, p);
    ray(b, m, MoveDirection::DiagonalLeftUp, p)
        + ray(b, m, MoveDirection::DiagonalLeft, p)
        + ray(b, m, MoveDirection::DiagonalLeftDown, p)
        + ray(b, m, MoveDirection::DiagonalRightUp, p)
        + ray(b, m, MoveDirection::DiagonalRight, p)
        + ray(b, m, MoveDirection::DiagonalRightDown, p)
}

/// The cells a queen reaches: the rook's cells, then the bishop's.
pub open spec fn queen_moves(b: Board, p: Coord) -> Seq<Coord> {
    rook_moves(b, p) + bishop_moves(b, p)
}

proof fn lemma_step_shrinks_room(d: MoveDirection, p: Coord)
    requires
        in_bounds(p),
        in_bounds(step(d, p)),
    ensures
        room(d, step(d, p)) < room(d, p),
{
}

/// Appends to `out` the ray from `from` in direction `d` for a piece of
/// color `mover`.
fn push_ray(b: &Board, mover: PieceColor, d: MoveDirection, from: Coord, out: &mut Vec<Coord>)
    requires
        in_bounds(from),
    ensures
        final(out)@ == old(out)@ + ray(*b, mover, d, from),
{
    let mut cur = from;
    loop
        invariant
            in_bounds(cur),
            out@ + ray(*b, mover, d, cur) == old(out)@ + ray(*b, mover, d, from),
        decreases room(d, cur),
    {
        let t = get_move_coordinate(d, &cur);
        if !is_coordinate_in_bounds(&t) {
            assert(out@ + ray(*b, mover, d, cur) =~= out@);
            return;
        }
        let c = get_piece(b, t).color;
        if c == PieceColor::Empty {
            proof {
                lemma_step_shrinks_room(d, cur);
            }
            assert(out@.push(t) + ray(*b, mover, d, t) =~= out@ + ray(*b, mover, d, cur));
            out.push(t);
            cur = t;
        } else {
            if c != mover {
                assert(out@.push(t) =~= out@ + ray(*b, mover, d, cur));
                out.push(t);
            } else {
                assert(out@ =~= out@ + ray(*b, mover, d, cur));
            }
            return;
        }
    }
}

/// Pseudo-legal destinations of a rook on `current_coordinates`.
pub fn get_rook_moves(board: &Board, current_coordinates: &Coord) -> (r: Vec<Coord>)
    requires
        in_bounds(*current_coordinates),
    ensures
        r@ == rook_moves(*board, *current_coordinates),
{
    let from = *current_coordinates;
    let mover = get_piece(board, from).color;
    let mut legal_moves: Vec<Coord> = Vec::new();
    push_ray(board, mover, MoveDirection::LeftUp, from, &mut legal_moves);
    push_ray(board, mover, MoveDirection::Up, from, &mut legal_moves);
    push_ray(board, mover, MoveDirection::RightUp, from, &mut legal_moves);
    push_ray(board, mover, MoveDirection::LeftDown, from, &mut legal_moves);
    push_ray(board, mover, MoveDirection::Down, from, &mut legal_moves);
    push_ray(board, mover, MoveDirection::RightDown, from, &mut legal_moves);
    assert(legal_moves@ =~= rook_moves(*board, from));
    legal_moves
}

/// Pseudo-legal destinations of a bishop on `current_coordinates`.
pub fn get_bishop_moves(board: &Board, current_coordinates: &Coord) -> (r: Vec<Coord>)
    requires
        in_bounds(*current_coordinates),
    ensures
        r@ == bishop_moves(*board, *current_coordinates),
{
    let from = *current_coordinates;
    let mover = get_piece(board, from).color;
    let mut legal_moves: Vec<Coord> = Vec::new();
    push_ray(board, mover, MoveDirection::DiagonalLeftUp, from, &mut legal_moves);
    push_ray(board, mover, MoveDirection::DiagonalLeft, from, &mut legal_moves);
    push_ray(board, mover, MoveDirection::DiagonalLeftDown, from, &mut legal_moves);
    push_ray(board, mover, MoveDirection::DiagonalRightUp, from, &mut legal_moves);
    push_ray(board, mover, MoveDirection::DiagonalRight, from, &mut legal_moves);
    push_ray(board, mover, MoveDirection::DiagonalRightDown, from, &mut legal_moves);
    assert(legal_moves@ =~= bishop_moves(*board, from));
    legal_moves
}

/// Pseudo-legal destinations of a queen on `current_coordinates`: those of a
/// rook followed by those of a bishop.
pub fn get_queen_moves(board: &Board, current_coordinates: &Coord) -> (r: Vec<Coord>)
    requires
        in_bounds(*current_coordinates),
    ensures
        r@ == queen_moves(*board, *current_coordinates),
{
    let mut legal_moves = get_rook_moves(board, current_coordinates);
    let mut diagonal_moves = get_bishop_moves(board, current_coordinates);
    legal_moves.append(&mut diagonal_moves);
    legal_moves
}

/// The order in which a king tries its twelve neighbours.
pub open spec fn king_direction(k: int) -> MoveDirection {
    if k == 0 {
        MoveDirection::Up
    } else if k == 1 {
        MoveDirection::DiagonalRightUp
    } else if k == 2 {
        MoveDirection::RightUp
    } else if k == 3 {
        MoveDirection::DiagonalRight
    } else if k == 4 {
        MoveDirection::RightDown
    } else if k == 5 {
        MoveDirection::DiagonalRightDown
    } else if k == 6 {
        MoveDirection::Down
    } else if k == 7 {
        MoveDirection::DiagonalLeftDown
    } else if k == 8 {
        MoveDirection::LeftDown
    } else if k == 9 {
        MoveDirection::DiagonalLeft
    } else if k == 10 {
        MoveDirection::LeftUp
    } else {
        MoveDirection::DiagonalLeftUp
    }
}

/// The king's destinations among its first `k` neighbours.
pub open spec fn king_moves_upto(b: Board, p: Coord, k: int) -> Seq<Coord>
    decreases k,
{
    if k <= 0 {
        seq![]
    } else {
        let prev = king_moves_upto(b, p, k - 1);
        let t = step(king_direction(k - 1), p);
        if open_for(b, color_at(b, p), t) {
            prev.push(t)
        } else {
            prev
        }
    }
}

/// The cells a king on `p` reaches: each on-board neighbour that does not
/// hold a piece of the king's color.
pub open spec fn king_moves(b: Board, p: Coord) -> Seq<Coord> {
    king_moves_upto(b, p, 12)
}

/// Row and column change of the `k`-th knight jump.
pub open spec fn knight_offset(k: int) -> (int, int) {
    if k == 0 {
        (-3, 1)
    } else if k == 1 {
        (-3, 2)
    } else if k == 2 {
        (-2, -1)
    } else if k == 3 {
        (-1, -2)
    } else if k == 4 {
        (1, -3)
    } else if k == 5 {
        (2, -3)
    } else if k == 6 {
        (3, -2)
    } else if k == 7 {
        (3, -1)
    } else if k == 8 {
        (2, 1)
    } else if k == 9 {
        (1, 2)
    } else if k == 10 {
        (-1, 3)
    } else {
        (-2, 3)
    }
}

/// The target of the `k`-th knight jump from `p`.
pub open spec fn knight_jump(p: Coord, k: int) -> Coord {
    shifted(p, knight_offset(k).0, knight_offset(k).1)
}

/// The knight's destinations among its first `k` jumps.
pub open spec fn knight_moves_upto(b: Board, p: Coord, k: int) -> Seq<Coord>
    decreases k,
{
    if k <= 0 {
        seq![]
    } else {
        let prev = knight_moves_upto(b, p, k - 1);
        let t = knight_jump(p, k - 1);
        if open_for(b, color_at(b, p), t) {
            prev.push(t)
        } else {
            prev
        }
    }
}

/// The cells a knight on `p` reaches: each on-board jump target that does
/// not hold a piece of the knight's color.
pub open spec fn knight_moves(b: Board, p: Coord) -> Seq<Coord> {
    knight_moves_upto(b, p, 12)
}

fn king_direction_at(k: usize) -> (d: MoveDirection)
    requires
        k < 12,
    ensures
        d == king_direction(k as int),
{
    match k {
        0 => MoveDirection::Up,
        1 => MoveDirection::DiagonalRightUp,
        2 => MoveDirection::RightUp,
        3 => MoveDirection::DiagonalRight,
        4 => MoveDirection::RightDown,
        5 => MoveDirection::DiagonalRightDown,
        6 => MoveDirection::Down,
        7 => MoveDirection::DiagonalLeftDown,
        8 => MoveDirection::LeftDown,
        9 => MoveDirection::DiagonalLeft,
        10 => MoveDirection::LeftUp,
        _ => MoveDirection::DiagonalLeftUp,
    }
}

fn knight_target(p: Coord, k: usize) -> (t: Coord)
    requires
        p.0 < 11,
        p.1 < 11,
        k < 12,
    ensures
        t == knight_jump(p, k as int),
{
    let (x, y) = p;
    let fallback: Coord = (OFF_BOARD, OFF_BOARD);
    match k {
        0 => if x >= 3 { (x - 3, y + 1) } else { fallback },
        1 => if x >= 3 { (x - 3, y + 2) } else { fallback },
        2 => if x >= 2 && y >= 1 { (x - 2, y - 1) } else { fallback },
        3 => if x >= 1 && y >= 2 { (x - 1, y - 2) } else { fallback },
        4 => if y >= 3 { (x + 1, y - 3) } else { fallback },
        5 => if y >= 3 { (x + 2, y - 3) } else { fallback },
        6 => if y >= 2 { (x + 3, y - 2) } else { fallback },
        7 => if y >= 1 { (x + 3, y - 1) } else { fallback },
        8 => (x + 2, y + 1),
        9 => (x + 1, y + 2),
        10 => if x >= 1 { (x - 1, y + 3) } else { fallback },
        _ => if x >= 2 { (x - 2, y + 3) } else { fallback },
    }
}

/// Tells whether a piece of color `mover` may land on `t`.
fn is_open_for(b: &Board, mover: PieceColor, t: Coord) -> (r: bool)
    ensures
        r == open_for(*b, mover, t),
{
    if !is_coordinate_in_bounds(&t) {
        return false;
    }
    let c = get_piece(b, t).color;
    !(c != PieceColor::Empty && c == mover)
}

/// Pseudo-legal destinations of a knight on `current_coordinates`.
pub fn get_knight_moves(board: &Board, current_coordinates: &Coord) -> (r: Vec<Coord>)
    requires
        in_bounds(*current_coordinates),
    ensures
        r@ == knight_moves(*board, *current_coordinates),
{
    let from = *current_coordinates;
    let mover = get_piece(board, from).color;
    let mut legal_moves: Vec<Coord> = Vec::new();
    let mut k: usize = 0;
    while k < 12
        invariant
            k <= 12,
            in_bounds(from),
            mover == color_at(*board, from),
            legal_moves@ == knight_moves_upto(*board, from, k as int),
        decreases 12 - k,
    {
        let t = knight_target(from, k);
        if is_open_for(board, mover, t) {
            legal_moves.push(t);
        }
        k = k + 1;
    }
    legal_moves
}

/// Pseudo-legal destinations of a king on `current_coordinates`.
pub fn get_king_moves(board: &Board, current_coordinates: &Coord) -> (r: Vec<Coord>)
    requires
        in_bounds(*current_coordinates),
    ensures
        r@ == king_moves(*board, *current_coordinates),
{
    let from = *current_coordinates;
    let mover = get_piece(board, from).color;
    let mut legal_moves: Vec<Coord> = Vec::new();
    let mut k: usize = 0;
    while k < 12
        invariant
            k <= 12,
            in_bounds(from),
            mover == color_at(*board, from),
            legal_moves@ == king_moves_upto(*board, from, k as int),
        decreases 12 - k,
    {
        let t = get_move_coordinate(king_direction_at(k), &from);
        if is_open_for(board, mover, t) {
            legal_moves.push(t);
        }
        k = k + 1;
    }
    legal_moves
}

/// The nine cells on which a pawn of color `m` starts and may advance two
/// cells at once.
pub open spec fn pawn_start(m: PieceColor, p: Coord) -> bool {
    let (x, y) = p;
    if m == PieceColor::Black {
        ||| (x, y) == (0usize, 9usize)
        ||| (x, y) == (1usize, 8usize)
        ||| (x, y) == (2usize, 7usize)
        ||| (x, y) == (3usize, 6usize)
        ||| (x, y) == (4usize, 5usize)
        ||| (x, y) == (4usize, 4usize)
        ||| (x, y) == (4usize, 3usize)
        ||| (x, y) == (4usize, 2usize)
        ||| (x, y) == (4usize, 1usize)
    } else {
        ||| (x, y) == (6usize, 9usize)
        ||| (x, y) == (6usize, 8usize)
        ||| (x, y) == (6usize, 7usize)
        ||| (x, y) == (6usize, 6usize)
        ||| (x, y) == (6usize, 5usize)
        ||| (x, y) == (7usize, 4usize)
        ||| (x, y) == (8usize, 3usize)
        ||| (x, y) == (9usize, 2usize)
        ||| (x, y) == (10usize, 1usize)
    }
}

/// The direction in which a pawn of color `m` advances: black pawns move
/// down the rows, all others up.
pub open spec fn pawn_forward(m: PieceColor) -> MoveDirection {
    if m == PieceColor::Black { MoveDirection::Down } else { MoveDirection::Up }
}

/// The two directions in which a pawn of color `m` captures.
pub open spec fn pawn_capture_directions(m: PieceColor) -> (MoveDirection, MoveDirection) {
    if m == PieceColor::Black {
        (MoveDirection::RightDown, MoveDirection::LeftDown)
    } else {
        (MoveDirection::LeftUp, MoveDirection::RightUp)
    }
}

/// `t` is an on-board cell that holds no piece.
pub open spec fn vacant(b: Board, t: Coord) -> bool {
    in_bounds(t) && color_at(b, t) == PieceColor::Empty
}

/// `t` is an on-board cell that holds a piece of a color other than `m`.
pub open spec fn capturable(b: Board, m: PieceColor, t: Coord) -> bool {
    &&& in_bounds(t)
    &&& piece_at(b, t).piece_type != PieceType::Empty
    &&& color_at(b, t) != PieceColor::Empty
    &&& color_at(b, t) != m
}

/// `seq![t]` when a pawn of color `m` can capture on `t`, else nothing.
pub open spec fn pawn_capture(b: Board, m: PieceColor, t: Coord) -> Seq<Coord> {
    if capturable(b, m, t) { seq![t] } else { seq![] }
}

/// The forward moves of a pawn on `p`: one cell when it is vacant, and the
/// cell beyond too when that is vacant and the pawn is on a starting cell.
pub open spec fn pawn_advance(b: Board, p: Coord) -> Seq<Coord> {
    let m = color_at(b, p);
    let one = step(pawn_forward(m), p);
    let two = step(pawn_forward(m), one);
    if !vacant(b, one) {
        seq![]
    } else if pawn_start(m, p) && vacant(b, two) {
        seq![one, two]
    } else {
        seq![one]
    }
}

/// The cells a pawn on `p` reaches: its two captures, then its advance.
pub open spec fn pawn_moves(b: Board, p: Coord) -> Seq<Coord> {
    let m = color_at(b, p);
    let (left, right) = pawn_capture_directions(m);
    pawn_capture(b, m, step(left, p)) + pawn_capture(b, m, step(right, p)) + pawn_advance(b, p)
}

fn is_pawn_start(m: PieceColor, p: Coord) -> (r: bool)
    ensures
        r == pawn_start(m, p),
{
    let (x, y) = p;
    if m == PieceColor::Black {
        (x == 0 && y == 9) || (x == 1 && y == 8) || (x == 2 && y == 7) || (x == 3 && y == 6) || (x
            == 4 && 1 <= y && y <= 5)
    } else {
        (x == 6 && 5 <= y && y <= 9) || (x == 7 && y == 4) || (x == 8 && y == 3) || (x == 9 && y
            == 2) || (x == 10 && y == 1)
    }
}

fn is_vacant(b: &Board, t: Coord) -> (r: bool)
    ensures
        r == vacant(*b, t),
{
    is_coordinate_in_bounds(&t) && get_piece(b, t).color == PieceColor::Empty
}

fn is_capturable(b: &Board, m: PieceColor, t: Coord) -> (r: bool)
    ensures
        r == capturable(*b, m, t),
{
    if !is_coordinate_in_bounds(&t) {
        return false;
    }
    let q = get_piece(b, t);
    q.piece_type != PieceType::Empty && q.color != PieceColor::Empty && q.color != m
}

/// Pseudo-legal destinations of a pawn on `current_coordinates`: captures
/// on its two forward diagonals, then its advance of one or two cells.
pub fn get_pawn_moves(board: &Board, current_coordinates: &Coord) -> (r: Vec<Coord>)
    requires
        in_bounds(*current_coordinates),
    ensures
        r@ == pawn_moves(*board, *current_coordinates),
{
    let from = *current_coordinates;
    let mover = get_piece(board, from).color;
    let (forward, left, right) = if mover == PieceColor::Black {
        (MoveDirection::Down, MoveDirection::RightDown, MoveDirection::LeftDown)
    } else {
        (MoveDirection::Up, MoveDirection::LeftUp, MoveDirection::RightUp)
    };
    let mut legal_moves: Vec<Coord> = Vec::new();
    let t = get_move_coordinate(left, &from);
    if is_capturable(board, mover, t) {
        legal_moves.push(t);
    }
    let t = get_move_coordinate(right, &from);
    if is_capturable(board, mover, t) {
        legal_moves.push(t);
    }
    let captures = Ghost(legal_moves@);
    let one = get_move_coordinate(forward, &from);
    if is_vacant(board, one) {
        legal_moves.push(one);
        let two = get_move_coordinate(forward, &one);
        if is_pawn_start(mover, from) && is_vacant(board, two) {
            legal_moves.push(two);
        }
    }
    assert(legal_moves@ =~= captures@ + pawn_advance(*board, from));
    legal_moves
}

/// The pseudo-legal destinations of the piece on `p`. A cell without a
/// piece yields `p` itself as its only entry.
pub open spec fn piece_moves(b: Board, p: Coord) -> Seq<Coord> {
    let q = piece_at(b, p);
    if q.color == PieceColor::Empty {
        seq![p]
    } else {
        match q.piece_type {
            PieceType::Pawn => pawn_moves(b, p),
            PieceType::Knight => knight_moves(b, p),
            PieceType::Bishop => bishop_moves(b, p),
            PieceType::Rook => rook_moves(b, p),
            PieceType::Queen => queen_moves(b, p),
            PieceType::King => king_moves(b, p),
            PieceType::Empty => seq![p],
        }
    }
}

/// Pseudo-legal destinations of the piece on `coordinates`, chosen by its
/// type; an empty cell yields `coordinates` itself as its only entry.
pub fn get_legal_moves(board: &Board, coordinates: &Coord) -> (r: Vec<Coord>)
    requires
        in_bounds(*coordinates),
    ensures
        r@ == piece_moves(*board, *coordinates),
{
    let piece = get_piece(board, *coordinates);
    if piece.color == PieceColor::Empty {
        return vec![*coordinates];
    }
    match piece.piece_type {
        PieceType::Pawn => get_pawn_moves(board, coordinates),
        PieceType::Knight => get_knight_moves(board, coordinates),
        PieceType::Bishop => get_bishop_moves(board, coordinates),
        PieceType::Rook => get_rook_moves(board, coordinates),
        PieceType::Queen => get_queen_moves(board, coordinates),
        PieceType::King => get_king_moves(board, coordinates),
        PieceType::Empty => vec![*coordinates],
    }
}

/// The board after `m`: its piece stands on `m.to` and `m.from` is empty.
pub open spec fn apply_move(b: Board, m: Move) -> Board {
    with_cell(with_cell(b, m.to, Some(m.piece)), m.from, Some(no_piece()))
}

/// Plays `move_info` on `board`: its piece overwrites the destination, which
/// is how a capture happens, and the origin becomes empty.
pub fn execute_move(board: &mut Board, move_info: &Move)
    requires
        move_info.from.0 < 11,
        move_info.from.1 < 11,
        move_info.to.0 < 11,
        move_info.to.1 < 11,
    ensures
        *final(board) == apply_move(*old(board), *move_info),
{
    set_piece(board, move_info.to, Some(move_info.piece));
    set_piece(
        board,
        move_info.from,
        Some(ChessPiece { piece_type: PieceType::Empty, color: PieceColor::Empty }),
    );
}

/// Destination lists by origin cell. Entries keep the order in which their
/// origins were first inserted, and `insert` keeps each origin once.
pub struct MoveList {
    entries: Vec<(Coord, Vec<Coord>)>,
}

/// Each origin appears in at most one entry.
pub open spec fn origins_unique(s: Seq<(Coord, Seq<Coord>)>) -> bool {
    forall|i: int, j: int| 0 <= i < j < s.len() ==> s[i].0 != s[j].0
}

/// The index of the first entry of `s` from `k` on whose origin is `o`, or
/// -1 when there is none.
pub open spec fn find_origin(s: Seq<(Coord, Seq<Coord>)>, o: Coord, k: int) -> int
    decreases s.len() - k,
{
    if k < 0 || k >= s.len() {
        -1
    } else if s[k].0 == o {
        k
    } else {
        find_origin(s, o, k + 1)
    }
}

/// Every origin and destination of `s` is a cell of the playing area.
pub open spec fn all_on_board(s: Seq<(Coord, Seq<Coord>)>) -> bool {
    forall|i: int| 0 <= i < s.len() ==> entry_on_board(#[trigger] s[i])
}

/// The origin and the destinations of `e` are cells of the playing area.
pub open spec fn entry_on_board(e: (Coord, Seq<Coord>)) -> bool {
    in_bounds(e.0) && all_in_bounds(e.1)
}

fn all_coordinates_in_bounds(v: &Vec<Coord>) -> (r: bool)
    ensures
        r == all_in_bounds(v@),
{
    let mut j: usize = 0;
    while j < v.len()
        invariant
            j <= v@.len(),
            forall|t: int| 0 <= t < j ==> in_bounds(#[trigger] v@[t]),
        decreases v.len() - j,
    {
        if !is_coordinate_in_bounds(&v[j]) {
            return false;
        }
        j = j + 1;
    }
    true
}

/// `s` with the destinations of `from` set to `v`: its entry is replaced
/// where there is one, and a new entry is appended otherwise.
pub open spec fn put(s: Seq<(Coord, Seq<Coord>)>, from: Coord, v: Seq<Coord>) -> Seq<
    (Coord, Seq<Coord>),
> {
    let i = find_origin(s, from, 0);
    if i >= 0 {
        s.update(i, (from, v))
    } else {
        s.push((from, v))
    }
}

impl View for MoveList {
    type V = Seq<(Coord, Seq<Coord>)>;

    closed spec fn view(&self) -> Seq<(Coord, Seq<Coord>)> {
        self.entries@.map_values(|e: (Coord, Vec<Coord>)| (e.0, e.1@))
    }
}

impl MoveList {
    /// An empty list.
    pub fn new() -> (r: MoveList)
        ensures
            r@ == Seq::<(Coord, Seq<Coord>)>::empty(),
    {
        MoveList { entries: Vec::new() }
    }

    /// The number of origins.
    pub fn len(&self) -> (r: usize)
        ensures
            r == self@.len(),
    {
        self.entries.len()
    }

    /// Whether the list has no origin at all.
    pub fn is_empty(&self) -> (r: bool)
        ensures
            r == (self@.len() == 0),
    {
        self.entries.len() == 0
    }

    /// Whether every origin and destination is a cell of the playing area,
    /// as `remove_check_moves` needs.
    pub fn is_on_board(&self) -> (r: bool)
        ensures
            r == all_on_board(self@),
    {
        let mut i: usize = 0;
        while i < self.entries.len()
            invariant
                i <= self.entries.len(),
                forall|k: int| 0 <= k < i ==> entry_on_board(#[trigger] self@[k]),
            decreases self.entries.len() - i,
        {
            let from = self.entries[i].0;
            let tos = &self.entries[i].1;
            assert(from == self@[i as int].0 && tos@ == self@[i as int].1);
            if !is_coordinate_in_bounds(&from) || !all_coordinates_in_bounds(tos) {
                return false;
            }
            i = i + 1;
        }
        true
    }

    /// The entry at `index`.
    pub fn entry(&self, index: usize) -> (r: (Coord, &Vec<Coord>))
        requires
            index < self@.len(),
        ensures
            r.0 == self@[index as int].0,
            r.1@ == self@[index as int].1,
    {
        (self.entries[index].0, &self.entries[index].1)
    }

    fn position_of(&self, from: Coord) -> (r: Option<usize>)
        ensures
            match r {
                Some(i) => i as int == find_origin(self@, from, 0) && i < self@.len(),
                None => find_origin(self@, from, 0) == -1,
            },
    {
        let mut i: usize = 0;
        while i < self.entries.len()
            invariant
                i <= self.entries.len(),
                find_origin(self@, from, 0) == find_origin(self@, from, i as int),
            decreases self.entries.len() - i,
        {
            let o = self.entries[i].0;
            assert(o == self@[i as int].0);
            if o.0 == from.0 && o.1 == from.1 {
                return Some(i);
            }
            i = i + 1;
        }
        None
    }

    /// The destinations listed for `from`, if it is an origin.
    pub fn get(&self, from: Coord) -> (r: Option<&Vec<Coord>>)
        ensures
            match r {
                Some(v) => {
                    let i = find_origin(self@, from, 0);
                    0 <= i && v@ == self@[i].1
                },
                None => find_origin(self@, from, 0) == -1,
            },
    {
        match self.position_of(from) {
            Some(i) => Some(&self.entries[i].1),
            None => None,
        }
    }

    /// Sets the destinations of `from`: the entry of `from` is replaced where
    /// there is one, and a new entry is appended otherwise.
    pub fn insert(&mut self, from: Coord, moves: Vec<Coord>)
        ensures
            final(self)@ == put(old(self)@, from, moves@),
            origins_unique(old(self)@) ==> origins_unique(final(self)@),
    {
        let ghost before = self@;
        match self.position_of(from) {
            Some(i) => {
                self.entries.set(i, (from, moves));
                assert(self@ =~= before.update(i as int, (from, moves@)));
                proof {
                    lemma_find_origin_found(before, from, 0);
                }
            },
            None => {
                self.entries.push((from, moves));
                assert(self@ =~= before.push((from, moves@)));
                proof {
                    lemma_find_origin_absent(before, from, 0);
                }
            },
        }
    }
}

/// Moving the piece on `from` to `to` does not leave that piece's side in
/// check.
pub open spec fn safe_move(b: Board, from: Coord, to: Coord) -> bool {
    let mv = Move { piece: piece_at(b, from), from, to };
    !in_check(apply_move(b, mv), color_at(b, from))
}

/// The destinations of `ts` that `safe_move` keeps, in their order.
pub open spec fn safe_targets(b: Board, from: Coord, ts: Seq<Coord>) -> Seq<Coord>
    decreases ts.len(),
{
    if ts.len() == 0 {
        seq![]
    } else {
        let prev = safe_targets(b, from, ts.drop_last());
        if safe_move(b, from, ts.last()) {
            prev.push(ts.last())
        } else {
            prev
        }
    }
}

/// The entries of `es` with their unsafe destinations removed, leaving out
/// the entries with no destination left.
pub open spec fn legal_entries(b: Board, es: Seq<(Coord, Seq<Coord>)>) -> Seq<
    (Coord, Seq<Coord>),
>
    decreases es.len(),
{
    if es.len() == 0 {
        seq![]
    } else {
        let prev = legal_entries(b, es.drop_last());
        let kept = safe_targets(b, es.last().0, es.last().1);
        if kept.len() > 0 {
            prev.push((es.last().0, kept))
        } else {
            prev
        }
    }
}

fn is_safe_move(board: &Board, from: Coord, to: Coord) -> (r: bool)
    requires
        in_bounds(from),
        in_bounds(to),
    ensures
        r == safe_move(*board, from, to),
{
    let mut board_copy = *board;
    let piece = get_piece(board, from);
    let move_info = Move { piece, from, to };
    execute_move(&mut board_copy, &move_info);
    !is_check(&board_copy, piece.color)
}

/// Drops every move that would leave the moving piece's own king in check,
/// trying each on a copy of `board`; origins left without a destination are
/// removed.
pub fn remove_check_moves(board: &Board, move_list: &mut MoveList)
    requires
        all_on_board(old(move_list)@),
    ensures
        final(move_list)@ == legal_entries(*board, old(move_list)@),
        origins_unique(old(move_list)@) ==> origins_unique(final(move_list)@),
{
    let ghost before = move_list@;
    let mut kept: Vec<(Coord, Vec<Coord>)> = Vec::new();
    let mut i: usize = 0;
    while i < move_list.entries.len()
        invariant
            i <= move_list.entries.len(),
            move_list@ == before,
            all_on_board(before),
            kept@.map_values(|e: (Coord, Vec<Coord>)| (e.0, e.1@)) == legal_entries(
                *board,
                before.subrange(0, i as int),
            ),
        decreases move_list.entries.len() - i,
    {
        let from = move_list.entries[i].0;
        let tos = &move_list.entries[i].1;
        assert(from == before[i as int].0 && tos@ == before[i as int].1);
        let mut targets: Vec<Coord> = Vec::new();
        let mut j: usize = 0;
        while j < tos.len()
            invariant
                j <= tos.len(),
                in_bounds(from),
                forall|k: int| 0 <= k < tos@.len() ==> in_bounds(#[trigger] tos@[k]),
                targets@ == safe_targets(*board, from, tos@.subrange(0, j as int)),
            decreases tos.len() - j,
        {
            let to = tos[j];
            if is_safe_move(board, from, to) {
                targets.push(to);
            }
            assert(tos@.subrange(0, j + 1).drop_last() =~= tos@.subrange(0, j as int));
            j = j + 1;
        }
        assert(tos@.subrange(0, tos@.len() as int) =~= tos@);
        let ghost prev = kept@;
        assert(before.subrange(0, i + 1).drop_last() =~= before.subrange(0, i as int));
        if targets.len() > 0 {
            kept.push((from, targets));
            assert(kept@.map_values(|e: (Coord, Vec<Coord>)| (e.0, e.1@)) =~= prev.map_values(
                |e: (Coord, Vec<Coord>)| (e.0, e.1@),
            ).push((from, safe_targets(*board, from, before[i as int].1))));
        }
        i = i + 1;
    }
    assert(before.subrange(0, before.len() as int) =~= before);
    move_list.entries = kept;
    proof {
        lemma_legal_entries_origins(*board, before);
    }
}

proof fn lemma_legal_entries_origins(b: Board, es: Seq<(Coord, Seq<Coord>)>)
    ensures
        forall|i: int|
            0 <= i < legal_entries(b, es).len() ==> exists|j: int|
                0 <= j < es.len() && es[j].0 == (#[trigger] legal_entries(b, es)[i]).0,
        origins_unique(es) ==> origins_unique(legal_entries(b, es)),
    decreases es.len(),
{
    if es.len() > 0 {
        let init = es.drop_last();
        lemma_legal_entries_origins(b, init);
        let prev = legal_entries(b, init);
        let cur = legal_entries(b, es);
        assert forall|i: int| 0 <= i < cur.len() implies exists|j: int|
            0 <= j < es.len() && es[j].0 == (#[trigger] cur[i]).0 by {
            if i < prev.len() {
                assert(cur[i] == prev[i]);
                let j = choose|j: int| 0 <= j < init.len() && init[j].0 == prev[i].0;
                assert(es[j] == init[j]);
            } else {
                assert(cur[i].0 == es[es.len() - 1].0);
            }
        }
        if origins_unique(es) {
            assert(origins_unique(init)) by {
                assert forall|i: int, j: int| 0 <= i < j < init.len() implies init[i].0
                    != init[j].0 by {
                    assert(init[i] == es[i] && init[j] == es[j]);
                }
            }
            assert forall|i: int, j: int| 0 <= i < j < cur.len() implies cur[i].0 != cur[j].0 by {
                if j < prev.len() {
                    assert(cur[i] == prev[i] && cur[j] == prev[j]);
                } else {
                    assert(cur[i] == prev[i]);
                    let k = choose|k: int| 0 <= k < init.len() && init[k].0 == prev[i].0;
                    assert(es[k] == init[k]);
                }
            }
        }
    }
}

pub(crate) proof fn lemma_find_origin_found(s: Seq<(Coord, Seq<Coord>)>, o: Coord, k: int)
    requires
        find_origin(s, o, k) >= 0,
    ensures
        find_origin(s, o, k) < s.len(),
        s[find_origin(s, o, k)].0 == o,
    decreases s.len() - k,
{
    if 0 <= k < s.len() && s[k].0 != o {
        lemma_find_origin_found(s, o, k + 1);
    }
}

proof fn lemma_find_origin_absent(s: Seq<(Coord, Seq<Coord>)>, o: Coord, k: int)
    requires
        0 <= k,
        find_origin(s, o, k) == -1,
    ensures
        forall|i: int| k <= i < s.len() ==> s[i].0 != o,
    decreases s.len() - k,
{
    if k < s.len() {
        lemma_find_origin_absent(s, o, k + 1);
    }
}

/// The cell `n` steps from `p` in direction `d`.
pub open spec fn walk(d: MoveDirection, p: Coord, n: nat) -> Coord
    decreases n,
{
    if n == 0 {
        p
    } else {
        walk(d, step(d, p), (n - 1) as nat)
    }
}

/// A ray is the run of cells met walking from `p` in direction `d`: every
/// cell but the last is empty; a last cell that is occupied holds a piece of
/// another color than the mover's; and where the ray ends on an empty cell,
/// or is empty, the next cell is off the board or holds a piece of the
/// mover's own color. So no cell beyond the first occupied one is reached.
pub proof fn lemma_ray_stops_at_first_piece(b: Board, m: PieceColor, d: MoveDirection, p: Coord)
    requires
        in_bounds(p),
    ensures
        ({
            let s = ray(b, m, d, p);
            let n = s.len();
            &&& forall|i: int|
                0 <= i < n ==> #[trigger] s[i] == walk(d, p, (i + 1) as nat) && in_bounds(s[i])
            &&& forall|i: int| 0 <= i < n - 1 ==> color_at(b, #[trigger] s[i]) == PieceColor::Empty
            &&& n > 0 && color_at(b, s[n - 1]) != PieceColor::Empty ==> color_at(b, s[n - 1]) != m
            &&& (n == 0 || color_at(b, s[n - 1]) == PieceColor::Empty) ==> {
                let next = walk(d, p, (n + 1) as nat);
                !in_bounds(next) || (color_at(b, next) != PieceColor::Empty && color_at(b, next)
                    == m)
            }
        }),
    decreases room(d, p),
{
    let t = step(d, p);
    let s = ray(b, m, d, p);
    if in_bounds(t) && color_at(b, t) == PieceColor::Empty {
        lemma_step_shrinks_room(d, p);
        lemma_ray_stops_at_first_piece(b, m, d, t);
        let rest = ray(b, m, d, t);
        assert(s == seq![t] + rest);
        assert forall|i: int| 0 <= i < s.len() implies #[trigger] s[i] == walk(
            d,
            p,
            (i + 1) as nat,
        ) && in_bounds(s[i]) by {
            assert(walk(d, p, (i + 1) as nat) == walk(d, t, i as nat));
            if i > 0 {
                assert(s[i] == rest[i - 1]);
            } else {
                assert(walk(d, t, 0) == t);
            }
        }
        assert forall|i: int| 0 <= i < s.len() - 1 implies color_at(b, #[trigger] s[i])
            == PieceColor::Empty by {
            if i > 0 {
                assert(s[i] == rest[i - 1]);
            }
        }
        if rest.len() == 0 {
            assert(walk(d, p, 2) == walk(d, t, 1));
        } else {
            assert(s[s.len() - 1] == rest[rest.len() - 1]);
            assert(walk(d, p, (s.len() + 1) as nat) == walk(d, t, (rest.len() + 1) as nat));
        }
    } else {
        assert(walk(d, p, 1) == walk(d, t, 0));
    }
}

/// Every knight destination is an on-board cell free of the knight's own
/// color, reached by one of the twelve knight jumps with no coordinate ever
/// going below zero.
pub proof fn lemma_knight_moves_on_board(b: Board, p: Coord)
    requires
        in_bounds(p),
    ensures
        forall|i: int|
            0 <= i < knight_moves(b, p).len() ==> {
                let t = #[trigger] knight_moves(b, p)[i];
                &&& open_for(b, color_at(b, p), t)
                &&& exists|k: int|
                    0 <= k < 12 && t.0 == p.0 + knight_offset(k).0 && t.1 == p.1 + knight_offset(
                        k,
                    ).1
            },
{
    lemma_knight_moves_upto(b, p, 12);
}

proof fn lemma_knight_moves_upto(b: Board, p: Coord, k: int)
    requires
        in_bounds(p),
        0 <= k <= 12,
    ensures
        forall|i: int|
            0 <= i < knight_moves_upto(b, p, k).len() ==> {
                let t = #[trigger] knight_moves_upto(b, p, k)[i];
                &&& open_for(b, color_at(b, p), t)
                &&& exists|j: int|
                    0 <= j < k && t.0 == p.0 + knight_offset(j).0 && t.1 == p.1 + knight_offset(
                        j,
                    ).1
            },
    decreases k,
{
    if k > 0 {
        lemma_knight_moves_upto(b, p, k - 1);
        let prev = knight_moves_upto(b, p, k - 1);
        let t = knight_jump(p, k - 1);
        assert forall|i: int| 0 <= i < knight_moves_upto(b, p, k).len() implies {
            let u = #[trigger] knight_moves_upto(b, p, k)[i];
            &&& open_for(b, color_at(b, p), u)
            &&& exists|j: int|
                0 <= j < k && u.0 == p.0 + knight_offset(j).0 && u.1 == p.1 + knight_offset(j).1
        } by {
            if i < prev.len() {
                assert(knight_moves_upto(b, p, k)[i] == prev[i]);
                let u = prev[i];
                let j = choose|j: int|
                    0 <= j < k - 1 && u.0 == p.0 + knight_offset(j).0 && u.1 == p.1
                        + knight_offset(j).1;
                assert(0 <= j < k);
            } else {
                assert(knight_moves_upto(b, p, k)[i] == t);
                assert(t.0 == p.0 + knight_offset(k - 1).0);
            }
        }
    }
}

/// A pawn on one of its starting cells whose two cells ahead are empty has
/// both advances, after whatever captures it has.
pub proof fn lemma_pawn_double_advance(b: Board, p: Coord)
    requires
        in_bounds(p),
        piece_at(b, p).piece_type == PieceType::Pawn,
        color_at(b, p) == PieceColor::White || color_at(b, p) == PieceColor::Black,
        pawn_start(color_at(b, p), p),
        color_at(b, step(pawn_forward(color_at(b, p)), p)) == PieceColor::Empty,
        color_at(b, walk(pawn_forward(color_at(b, p)), p, 2)) == PieceColor::Empty,
    ensures
        ({
            let m = color_at(b, p);
            let one = step(pawn_forward(m), p);
            let two = step(pawn_forward(m), one);
            let (left, right) = pawn_capture_directions(m);
            &&& two == walk(pawn_forward(m), p, 2)
            &&& piece_moves(b, p) == pawn_capture(b, m, step(left, p)) + pawn_capture(
                b,
                m,
                step(right, p),
            ) + seq![one, two]
        }),
{
    let m = color_at(b, p);
    let one = step(pawn_forward(m), p);
    assert(walk(pawn_forward(m), p, 2) == walk(pawn_forward(m), one, 1));
    assert(walk(pawn_forward(m), one, 1) == walk(pawn_forward(m), step(pawn_forward(m), one), 0));
}

/// Every cell of `s` is on the board.
pub open spec fn all_in_bounds(s: Seq<Coord>) -> bool {
    forall|i: int| 0 <= i < s.len() ==> in_bounds(#[trigger] s[i])
}

proof fn lemma_concat_in_bounds(a: Seq<Coord>, c: Seq<Coord>)
    requires
        all_in_bounds(a),
        all_in_bounds(c),
    ensures
        all_in_bounds(a + c),
{
    assert forall|i: int| 0 <= i < (a + c).len() implies in_bounds(#[trigger] (a + c)[i]) by {
        if i < a.len() {
            assert((a + c)[i] == a[i]);
        } else {
            assert((a + c)[i] == c[i - a.len()]);
        }
    }
}

proof fn lemma_ray_in_bounds(b: Board, m: PieceColor, d: MoveDirection, p: Coord)
    requires
        in_bounds(p),
    ensures
        all_in_bounds(ray(b, m, d, p)),
{
    lemma_ray_stops_at_first_piece(b, m, d, p);
}

proof fn lemma_steps_in_bounds(b: Board, p: Coord, k: int)
    requires
        in_bounds(p),
    ensures
        all_in_bounds(knight_moves_upto(b, p, k)),
        all_in_bounds(king_moves_upto(b, p, k)),
    decreases k,
{
    if k > 0 {
        lemma_steps_in_bounds(b, p, k - 1);
        let s1 = knight_moves_upto(b, p, k);
        let s2 = king_moves_upto(b, p, k);
        assert forall|i: int| 0 <= i < s1.len() implies in_bounds(#[trigger] s1[i]) by {
            if i < knight_moves_upto(b, p, k - 1).len() {
                assert(s1[i] == knight_moves_upto(b, p, k - 1)[i]);
            }
        }
        assert forall|i: int| 0 <= i < s2.len() implies in_bounds(#[trigger] s2[i]) by {
            if i < king_moves_upto(b, p, k - 1).len() {
                assert(s2[i] == king_moves_upto(b, p, k - 1)[i]);
            }
        }
    }
}

/// The pseudo-legal destinations of any piece on the board are cells of
/// the board.
pub proof fn lemma_piece_moves_in_bounds(b: Board, p: Coord)
    requires
        in_bounds(p),
    ensures
        all_in_bounds(piece_moves(b, p)),
{
    let m = color_at(b, p);
    lemma_ray_in_bounds(b, m, MoveDirection::LeftUp, p);
    lemma_ray_in_bounds(b, m, MoveDirection::Up, p);
    lemma_ray_in_bounds(b, m, MoveDirection::RightUp, p);
    lemma_ray_in_bounds(b, m, MoveDirection::LeftDown, p);
    lemma_ray_in_bounds(b, m, MoveDirection::Down, p);
    lemma_ray_in_bounds(b, m, MoveDirection::RightDown, p);
    lemma_ray_in_bounds(b, m, MoveDirection::DiagonalLeftUp, p);
    lemma_ray_in_bounds(b, m, MoveDirection::DiagonalLeft, p);
    lemma_ray_in_bounds(b, m, MoveDirection::DiagonalLeftDown, p);
    lemma_ray_in_bounds(b, m, MoveDirection::DiagonalRightUp, p);
    lemma_ray_in_bounds(b, m, MoveDirection::DiagonalRight, p);
    lemma_ray_in_bounds(b, m, MoveDirection::DiagonalRightDown, p);
    let r1 = ray(b, m, MoveDirection::LeftUp, p);
    let r2 = ray(b, m, MoveDirection::Up, p);
    let r3 = ray(b, m, MoveDirection::RightUp, p);
    let r4 = ray(b, m, MoveDirection::LeftDown, p);
    let r5 = ray(b, m, MoveDirection::Down, p);
    let r6 = ray(b, m, MoveDirection::RightDown, p);
    lemma_concat_in_bounds(r1, r2);
    lemma_concat_in_bounds(r1 + r2, r3);
    lemma_concat_in_bounds(r1 + r2 + r3, r4);
    lemma_concat_in_bounds(r1 + r2 + r3 + r4, r5);
    lemma_concat_in_bounds(r1 + r2 + r3 + r4 + r5, r6);
    let d1 = ray(b, m, MoveDirection::DiagonalLeftUp, p);
    let d2 = ray(b, m, MoveDirection::DiagonalLeft, p);
    let d3 = ray(b, m, MoveDirection::DiagonalLeftDown, p);
    let d4 = ray(b, m, MoveDirection::DiagonalRightUp, p);
    let d5 = ray(b, m, MoveDirection::DiagonalRight, p);
    let d6 = ray(b, m, MoveDirection::DiagonalRightDown, p);
    lemma_concat_in_bounds(d1, d2);
    lemma_concat_in_bounds(d1 + d2, d3);
    lemma_concat_in_bounds(d1 + d2 + d3, d4);
    lemma_concat_in_bounds(d1 + d2 + d3 + d4, d5);
    lemma_concat_in_bounds(d1 + d2 + d3 + d4 + d5, d6);
    lemma_concat_in_bounds(rook_moves(b, p), bishop_moves(b, p));
    lemma_steps_in_bounds(b, p, 12);
    let (left, right) = pawn_capture_directions(m);
    let c1 = pawn_capture(b, m, step(left, p));
    let c2 = pawn_capture(b, m, step(right, p));
    lemma_concat_in_bounds(c1, c2);
    lemma_concat_in_bounds(c1 + c2, pawn_advance(b, p));
}

/// Every destination that `remove_check_moves` keeps, played from its
/// origin, leaves the moving side out of check.
pub proof fn lemma_kept_moves_avoid_check(b: Board, before: Seq<(Coord, Seq<Coord>)>)
    ensures
        forall|i: int, j: int|
            0 <= i < legal_entries(b, before).len() && 0 <= j < legal_entries(b, before)[i].1.len()
                ==> {
                let from = #[trigger] legal_entries(b, before)[i].0;
                let to = #[trigger] legal_entries(b, before)[i].1[j];
                !in_check(
                    apply_move(b, Move { piece: piece_at(b, from), from, to }),
                    color_at(b, from),
                )
            },
    decreases before.len(),
{
    if before.len() > 0 {
        lemma_kept_moves_avoid_check(b, before.drop_last());
        lemma_safe_targets(b, before.last().0, before.last().1);
    }
}

proof fn lemma_safe_targets(b: Board, from: Coord, ts: Seq<Coord>)
    ensures
        forall|j: int|
            0 <= j < safe_targets(b, from, ts).len() ==> safe_move(
                b,
                from,
                #[trigger] safe_targets(b, from, ts)[j],
            ),
    decreases ts.len(),
{
    if ts.len() > 0 {
        lemma_safe_targets(b, from, ts.drop_last());
        let prev = safe_targets(b, from, ts.drop_last());
        assert forall|j: int| 0 <= j < safe_targets(b, from, ts).len() implies safe_move(
            b,
            from,
            #[trigger] safe_targets(b, from, ts)[j],
        ) by {
            if j < prev.len() {
                assert(safe_targets(b, from, ts)[j] == prev[j]);
            }
        }
    }
}

} // verus!
