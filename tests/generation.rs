use hexchess::board::{get_default_board, Board};
use hexchess::moves::{
    get_bishop_moves, get_king_moves, get_knight_moves, get_legal_moves, get_pawn_moves,
    get_queen_moves, get_rook_moves, is_coordinate_in_bounds,
};
use hexchess::pieces::{ChessPiece, PieceColor, PieceType};

fn empty_board() -> Board {
    Board([[Some(ChessPiece { piece_type: PieceType::Empty, color: PieceColor::Empty }); 11]; 11])
}

fn place(board: &mut Board, at: (usize, usize), piece_type: PieceType, color: PieceColor) {
    board.0[at.0][at.1] = Some(ChessPiece { piece_type, color });
}

#[test]
fn start_pawn_in_front_of_white_king() {
    let board = get_default_board();
    assert_eq!(get_legal_moves(&board, &(7, 4)), vec![(6, 4), (5, 4)]);
}

#[test]
fn start_pawn_with_two_captures() {
    let mut board = empty_board();
    place(&mut board, (6, 6), PieceType::Pawn, PieceColor::White);
    place(&mut board, (5, 7), PieceType::Knight, PieceColor::Black);
    place(&mut board, (6, 5), PieceType::Rook, PieceColor::Black);
    assert_eq!(get_pawn_moves(&board, &(6, 6)), vec![(5, 7), (6, 5), (5, 6), (4, 6)]);
}

#[test]
fn pawn_does_not_capture_own_color() {
    let mut board = empty_board();
    place(&mut board, (6, 6), PieceType::Pawn, PieceColor::White);
    place(&mut board, (5, 7), PieceType::Knight, PieceColor::White);
    assert_eq!(get_legal_moves(&board, &(6, 6)), vec![(5, 6), (4, 6)]);
}

#[test]
fn pawn_off_start_moves_one_cell() {
    let mut board = empty_board();
    place(&mut board, (5, 5), PieceType::Pawn, PieceColor::White);
    assert_eq!(get_legal_moves(&board, &(5, 5)), vec![(4, 5)]);
}

#[test]
fn pawn_blocked_ahead_has_no_advance() {
    let mut board = empty_board();
    place(&mut board, (6, 6), PieceType::Pawn, PieceColor::White);
    place(&mut board, (5, 6), PieceType::Pawn, PieceColor::Black);
    assert_eq!(get_legal_moves(&board, &(6, 6)), Vec::<(usize, usize)>::new());
}

#[test]
fn pawn_blocked_two_ahead_moves_one() {
    let mut board = empty_board();
    place(&mut board, (6, 6), PieceType::Pawn, PieceColor::White);
    place(&mut board, (4, 6), PieceType::Pawn, PieceColor::Black);
    assert_eq!(get_legal_moves(&board, &(6, 6)), vec![(5, 6)]);
}

#[test]
fn black_pawn_moves_down() {
    let mut board = empty_board();
    place(&mut board, (4, 4), PieceType::Pawn, PieceColor::Black);
    place(&mut board, (4, 5), PieceType::Bishop, PieceColor::White);
    assert_eq!(get_legal_moves(&board, &(4, 4)), vec![(4, 5), (5, 4), (6, 4)]);
}

#[test]
fn pawn_at_edge_stays_on_board() {
    let mut board = empty_board();
    place(&mut board, (0, 7), PieceType::Pawn, PieceColor::White);
    assert_eq!(get_legal_moves(&board, &(0, 7)), Vec::<(usize, usize)>::new());
}

#[test]
fn rook_rays_stop_at_pieces() {
    let mut board = empty_board();
    place(&mut board, (5, 5), PieceType::Rook, PieceColor::White);
    place(&mut board, (3, 5), PieceType::Pawn, PieceColor::White);
    place(&mut board, (5, 7), PieceType::Pawn, PieceColor::Black);
    let expected = vec![
        (4, 6), (3, 7), (2, 8), (1, 9), (0, 10),
        (4, 5),
        (5, 4), (5, 3), (5, 2), (5, 1), (5, 0),
        (5, 6), (5, 7),
        (6, 5), (7, 5), (8, 5), (9, 5), (10, 5),
        (6, 4), (7, 3), (8, 2), (9, 1), (10, 0),
    ];
    assert_eq!(get_rook_moves(&board, &(5, 5)), expected);
}

#[test]
fn bishop_rays_on_empty_board() {
    let mut board = empty_board();
    place(&mut board, (5, 5), PieceType::Bishop, PieceColor::Black);
    let expected = vec![
        (3, 6), (1, 7),
        (4, 7), (3, 9),
        (6, 6), (7, 7),
        (4, 4), (3, 3),
        (6, 3), (7, 1),
        (7, 4), (9, 3),
    ];
    assert_eq!(get_bishop_moves(&board, &(5, 5)), expected);
}

#[test]
fn bishop_captures_and_stops() {
    let mut board = empty_board();
    place(&mut board, (5, 5), PieceType::Bishop, PieceColor::Black);
    place(&mut board, (3, 6), PieceType::Knight, PieceColor::White);
    place(&mut board, (6, 6), PieceType::Knight, PieceColor::Black);
    let expected = vec![
        (3, 6),
        (4, 7), (3, 9),
        (4, 4), (3, 3),
        (6, 3), (7, 1),
        (7, 4), (9, 3),
    ];
    assert_eq!(get_bishop_moves(&board, &(5, 5)), expected);
}

#[test]
fn queen_is_rook_then_bishop() {
    let mut board = empty_board();
    place(&mut board, (5, 5), PieceType::Queen, PieceColor::White);
    let queen = get_queen_moves(&board, &(5, 5));
    place(&mut board, (5, 5), PieceType::Rook, PieceColor::White);
    let mut expected = get_rook_moves(&board, &(5, 5));
    place(&mut board, (5, 5), PieceType::Bishop, PieceColor::White);
    expected.extend(get_bishop_moves(&board, &(5, 5)));
    assert_eq!(queen.len(), 42);
    assert_eq!(queen, expected);
}

#[test]
fn knight_from_centre_reaches_twelve_cells() {
    let mut board = empty_board();
    place(&mut board, (5, 5), PieceType::Knight, PieceColor::White);
    let expected = vec![
        (2, 6), (2, 7), (3, 4), (4, 3), (6, 2), (7, 2),
        (8, 3), (8, 4), (7, 6), (6, 7), (4, 8), (3, 8),
    ];
    assert_eq!(get_knight_moves(&board, &(5, 5)), expected);
}

#[test]
fn knight_skips_own_pieces_and_takes_others() {
    let mut board = empty_board();
    place(&mut board, (5, 5), PieceType::Knight, PieceColor::White);
    place(&mut board, (2, 6), PieceType::Pawn, PieceColor::White);
    place(&mut board, (2, 7), PieceType::Pawn, PieceColor::Black);
    let moves = get_knight_moves(&board, &(5, 5));
    assert!(!moves.contains(&(2, 6)));
    assert!(moves.contains(&(2, 7)));
    assert_eq!(moves.len(), 11);
}

#[test]
fn knight_in_corner_stays_on_board() {
    let mut board = empty_board();
    place(&mut board, (10, 0), PieceType::Knight, PieceColor::Black);
    let moves = get_knight_moves(&board, &(10, 0));
    assert_eq!(moves, vec![(7, 1), (7, 2), (9, 3), (8, 3)]);
    for m in moves {
        assert!(is_coordinate_in_bounds(&m));
    }
}

#[test]
fn king_steps_in_twelve_directions() {
    let mut board = empty_board();
    place(&mut board, (5, 5), PieceType::King, PieceColor::White);
    let expected = vec![
        (4, 5), (4, 4), (5, 4), (6, 3), (6, 4), (7, 4),
        (6, 5), (6, 6), (5, 6), (4, 7), (4, 6), (3, 6),
    ];
    assert_eq!(get_king_moves(&board, &(5, 5)), expected);
}

#[test]
fn king_skips_own_pieces_and_takes_others() {
    let mut board = empty_board();
    place(&mut board, (5, 5), PieceType::King, PieceColor::White);
    place(&mut board, (4, 5), PieceType::Pawn, PieceColor::White);
    place(&mut board, (5, 4), PieceType::Pawn, PieceColor::Black);
    let moves = get_legal_moves(&board, &(5, 5));
    assert!(!moves.contains(&(4, 5)));
    assert!(moves.contains(&(5, 4)));
    assert_eq!(moves.len(), 11);
}

#[test]
fn king_on_edge() {
    let mut board = empty_board();
    place(&mut board, (10, 4), PieceType::King, PieceColor::White);
    let expected = vec![(9, 4), (9, 3), (10, 3), (10, 5), (9, 6), (9, 5), (8, 5)];
    assert_eq!(get_king_moves(&board, &(10, 4)), expected);
}

#[test]
fn empty_cell_lists_itself() {
    let board = empty_board();
    assert_eq!(get_legal_moves(&board, &(5, 5)), vec![(5, 5)]);
    let mut board = empty_board();
    board.0[5][5] = None;
    assert_eq!(get_legal_moves(&board, &(5, 5)), vec![(5, 5)]);
}
