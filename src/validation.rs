use vstd::prelude::*;
use crate::board::{Board, Coord};
use crate::moves::{get_legal_moves, in_bounds, piece_moves, MoveList};
use crate::pieces::{
    all_pieces, get_all_pieces, lemma_all_pieces_on_board, position, Piece, PieceColor, PieceType,
};

verus! {

/// The side that plays against `c`; `Empty` has no opponent but itself.
pub open spec fn opponent(c: PieceColor) -> PieceColor {
    match c {
        PieceColor::White => PieceColor::Black,
        PieceColor::Black => PieceColor::White,
        PieceColor::Empty => PieceColor::Empty,
    }
}

/// The cell of the first king in `ps` from index `k` on.
pub open spec fn first_king(ps: Seq<Piece>, k: int) -> Option<Coord>
    decreases ps.len() - k,
{
    if k < 0 || k >= ps.len() {
        None
    } else if ps[k].piece.piece_type == PieceType::King {
        Some(position(ps[k]))
    } else {
        first_king(ps, k + 1)
    }
}

/// The cell of the king of color `color`: the first one in row-major order.
pub open spec fn king_square(b: Board, color: PieceColor) -> Option<Coord> {
    first_king(all_pieces(b, color), 0)
}

/// Some piece of color `by` has `t` among its pseudo-legal destinations.
pub open spec fn attacked_by(b: Board, by: PieceColor, t: Coord) -> bool {
    let ps = all_pieces(b, by);
    exists|k: int| 0 <= k < ps.len() && #[trigger] piece_moves(b, position(ps[k])).contains(t)
}

/// The king of color `color` stands on a cell that the other side attacks;
/// without such a king there is no check.
pub open spec fn in_check(b: Board, color: PieceColor) -> bool {
    match king_square(b, color) {
        Some(k) => attacked_by(b, opponent(color), k),
        None => false,
    }
}

fn opponent_of(c: PieceColor) -> (r: PieceColor)
    ensures
        r == opponent(c),
{
    match c {
        PieceColor::White => PieceColor::Black,
        PieceColor::Black => PieceColor::White,
        PieceColor::Empty => PieceColor::Empty,
    }
}

fn contains_coord(v: &Vec<Coord>, t: Coord) -> (r: bool)
    ensures
        r == v@.contains(t),
{
    let mut i: usize = 0;
    while i < v.len()
        invariant
            i <= v.len(),
            forall|k: int| 0 <= k < i ==> v@[k] != t,
        decreases v.len() - i,
    {
        if v[i].0 == t.0 && v[i].1 == t.1 {
            assert(v@[i as int] == t);
            return true;
        }
        i = i + 1;
    }
    false
}

/// Tells whether the king of color `color_to_check` is attacked: whether its
/// cell is among the pseudo-legal destinations of the other side's pieces.
/// A board without such a king is never in check.
pub fn is_check(board: &Board, color_to_check: PieceColor) -> (r: bool)
    ensures
        r == in_check(*board, color_to_check),
{
    let own = get_all_pieces(board, color_to_check);
    let mut king: Option<Coord> = None;
    let mut i: usize = 0;
    while king.is_none() && i < own.len()
        invariant
            i <= own.len(),
            own@ == all_pieces(*board, color_to_check),
            king is None ==> first_king(own@, 0) == first_king(own@, i as int),
            king is Some ==> king == first_king(own@, 0),
        decreases own.len() - i + if king is None { 1int } else { 0 },
    {
        if own[i].piece.piece_type == PieceType::King {
            king = Some((own[i].x, own[i].y));
        } else {
            i = i + 1;
        }
    }
    let target = match king {
        Some(k) => k,
        None => return false,
    };
    let opp = get_all_pieces(board, opponent_of(color_to_check));
    assert(king_square(*board, color_to_check) == Some(target));
    proof {
        lemma_all_pieces_on_board(*board, opponent(color_to_check));
        assert forall|k: int| 0 <= k < opp@.len() implies in_bounds(#[trigger] position(opp@[k])) by {
            assert(opp@[k] == all_pieces(*board, opponent(color_to_check))[k]);
        }
    }
    let mut j: usize = 0;
    while j < opp.len()
        invariant
            j <= opp.len(),
            opp@ == all_pieces(*board, opponent(color_to_check)),
            king_square(*board, color_to_check) == Some(target),
            forall|k: int|
                0 <= k < j ==> !#[trigger] piece_moves(*board, position(opp@[k])).contains(target),
            forall|k: int|
                0 <= k < opp@.len() ==> in_bounds(#[trigger] position(opp@[k])),
        decreases opp.len() - j,
    {
        let p: Coord = (opp[j].x, opp[j].y);
        assert(p == position(opp@[j as int]));
        let moves = get_legal_moves(board, &p);
        if contains_coord(&moves, target) {
            assert(piece_moves(*board, position(opp@[j as int])).contains(target));
            return true;
        }
        j = j + 1;
    }
    false
}

/// Whether a filtered move list leaves the player any move at all. Together
/// with `is_check` it tells check from checkmate and a normal position from
/// stalemate.
pub fn has_legal_moves(move_list: MoveList) -> (r: bool)
    ensures
        r == (move_list@.len() > 0),
{
    !move_list.is_empty()
}

} // verus!
