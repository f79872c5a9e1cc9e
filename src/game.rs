use vstd::prelude::*;
use vstd::string::StringExecFns;
use crate::board::{get_default_board, get_piece, is_start_board, piece_at, Board, Coord};
use crate::moves::{
    all_in_bounds, all_on_board, apply_move, execute_move, find_origin, get_legal_moves, in_bounds,
    legal_entries, lemma_find_origin_found, lemma_piece_moves_in_bounds, piece_moves, put,
    remove_check_moves, Move, MoveList,
};
use crate::pieces::{
    all_pieces, get_all_pieces, lemma_all_pieces_on_board, position, ChessPiece, Piece, PieceColor,
};
use crate::validation::opponent;

verus! {

/// Where a game stands.
#[derive(Clone, Copy, Debug, PartialEq, Eq, Structural)]
pub enum GameResult {
    Ongoing,
    Checkmate,
    Stalemate,
    Draw,
}

/// A game in progress: the board, whose turn it is, and its record.
pub struct Game {
    pub id: u32,
    pub move_history: Vec<Move>,
    pub board: Board,
    pub current_turn: PieceColor,
    /// The pieces taken by white, then those taken by black.
    pub captured_pieces: [Vec<ChessPiece>; 2],
    pub result: GameResult,
}

/// The letter that names side `c` (`W` or `B`), or nothing for `Empty`.
pub open spec fn turn_code(c: PieceColor) -> Seq<char> {
    match c {
        PieceColor::White => "W"@,
        PieceColor::Black => "B"@,
        PieceColor::Empty => ""@,
    }
}

/// The unfiltered move list of the pieces `ps`: each piece's cell with its
/// pseudo-legal destinations, inserted in the order of `ps`.
pub open spec fn candidate_entries(b: Board, ps: Seq<Piece>) -> Seq<(Coord, Seq<Coord>)>
    decreases ps.len(),
{
    if ps.len() == 0 {
        seq![]
    } else {
        let p = position(ps.last());
        put(candidate_entries(b, ps.drop_last()), p, piece_moves(b, p))
    }
}

/// The outcome of a position: mate when the side to move is in check and
/// has no move, stalemate when it has none and is not in check.
pub fn position_result(in_check: bool, has_moves: bool) -> (r: GameResult)
    ensures
        r == if has_moves {
            GameResult::Ongoing
        } else if in_check {
            GameResult::Checkmate
        } else {
            GameResult::Stalemate
        },
{
    if has_moves {
        GameResult::Ongoing
    } else if in_check {
        GameResult::Checkmate
    } else {
        GameResult::Stalemate
    }
}

impl Game {
    /// A new game from the standard starting position, white to move.
    pub fn new() -> (r: Game)
        ensures
            r.id == 0,
            r.move_history@.len() == 0,
            is_start_board(r.board),
            r.current_turn == PieceColor::White,
            r.captured_pieces[0]@.len() == 0,
            r.captured_pieces[1]@.len() == 0,
            r.result == GameResult::Ongoing,
    {
        Game {
            id: 0,
            move_history: Vec::new(),
            board: get_default_board(),
            current_turn: PieceColor::White,
            captured_pieces: [Vec::new(), Vec::new()],
            result: GameResult::Ongoing,
        }
    }

    /// The letter of the side to move: `W` or `B`.
    pub fn get_next_turn(&self) -> (r: String)
        ensures
            r@ == turn_code(self.current_turn),
    {
        match self.current_turn {
            PieceColor::White => String::from_str("W"),
            PieceColor::Black => String::from_str("B"),
            PieceColor::Empty => String::from_str(""),
        }
    }

    /// The legal moves of the side to move, by origin cell.
    pub fn get_current_player_moves(&self) -> (r: MoveList)
        ensures
            r@ == legal_entries(
                self.board,
                candidate_entries(self.board, all_pieces(self.board, self.current_turn)),
            ),
    {
        let pieces = get_all_pieces(&self.board, self.current_turn);
        proof {
            lemma_all_pieces_on_board(self.board, self.current_turn);
        }
        let mut move_list = MoveList::new();
        let mut i: usize = 0;
        while i < pieces.len()
            invariant
                i <= pieces.len(),
                pieces@ == all_pieces(self.board, self.current_turn),
                forall|k: int|
                    0 <= k < pieces@.len() ==> in_bounds(
                        #[trigger] position(pieces@[k]),
                    ),
                move_list@ == candidate_entries(self.board, pieces@.subrange(0, i as int)),
                all_on_board(move_list@),
            decreases pieces.len() - i,
        {
            let p: Coord = (pieces[i].x, pieces[i].y);
            assert(p == position(pieces@[i as int]));
            let moves = get_legal_moves(&self.board, &p);
            proof {
                lemma_piece_moves_in_bounds(self.board, p);
                lemma_put_on_board(move_list@, p, moves@);
            }
            move_list.insert(p, moves);
            assert(pieces@.subrange(0, i + 1).drop_last() =~= pieces@.subrange(0, i as int));
            i = i + 1;
        }
        assert(pieces@.subrange(0, pieces@.len() as int) =~= pieces@);
        remove_check_moves(&self.board, &mut move_list);
        move_list
    }

    /// Moves the piece on `from` to `to`, capturing whatever stood there.
    pub fn make_move(&mut self, from: Coord, to: Coord)
        requires
            from.0 < 11,
            from.1 < 11,
            to.0 < 11,
            to.1 < 11,
        ensures
            final(self).board == apply_move(
                old(self).board,
                Move { piece: piece_at(old(self).board, from), from, to },
            ),
            final(self).id == old(self).id,
            final(self).current_turn == old(self).current_turn,
            final(self).result == old(self).result,
            final(self).move_history@ == old(self).move_history@,
    {
        let piece = get_piece(&self.board, from);
        execute_move(&mut self.board, &Move { piece, from, to });
    }

    /// Hands the move to the other side.
    pub fn switch_player(&mut self)
        ensures
            final(self).current_turn == opponent(old(self).current_turn),
            final(self).board == old(self).board,
            final(self).id == old(self).id,
            final(self).result == old(self).result,
            final(self).move_history@ == old(self).move_history@,
    {
        self.current_turn = match self.current_turn {
            PieceColor::White => PieceColor::Black,
            PieceColor::Black => PieceColor::White,
            PieceColor::Empty => PieceColor::Empty,
        };
    }
}

proof fn lemma_put_on_board(s: Seq<(Coord, Seq<Coord>)>, from: Coord, v: Seq<Coord>)
    requires
        all_on_board(s),
        in_bounds(from),
        all_in_bounds(v),
    ensures
        all_on_board(put(s, from, v)),
{
    let r = put(s, from, v);
    if find_origin(s, from, 0) >= 0 {
        lemma_find_origin_found(s, from, 0);
    }
    assert forall|i: int| 0 <= i < r.len() implies {
        &&& in_bounds(#[trigger] r[i].0)
        &&& forall|j: int| 0 <= j < r[i].1.len() ==> in_bounds(#[trigger] r[i].1[j])
    } by {
        if i < s.len() && i != find_origin(s, from, 0) {
            assert(r[i] == s[i]);
            assert(in_bounds(s[i].0));
            assert forall|j: int| 0 <= j < r[i].1.len() implies in_bounds(
                #[trigger] r[i].1[j],
            ) by {
                assert(r[i].1[j] == s[i].1[j]);
            }
        } else {
            assert(r[i] == (from, v));
            assert forall|j: int| 0 <= j < r[i].1.len() implies in_bounds(
                #[trigger] r[i].1[j],
            ) by {
                assert(r[i].1[j] == v[j]);
            }
        }
    }
}

} // verus!
