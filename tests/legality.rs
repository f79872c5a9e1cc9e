use hexchess::board::{get_default_board, Board};
use hexchess::config::{config_or_fallback, get_fallback_config, validate_config, AppConfig};
use hexchess::game::{position_result, Game, GameResult};
use hexchess::moves::{execute_move, get_legal_moves, remove_check_moves, Move, MoveList};
use hexchess::pieces::{get_all_pieces, ChessPiece, PieceColor, PieceType};
use hexchess::validation::{has_legal_moves, is_check};

fn empty_board() -> Board {
    Board([[Some(ChessPiece { piece_type: PieceType::Empty, color: PieceColor::Empty }); 11]; 11])
}

fn place(board: &mut Board, at: (usize, usize), piece_type: PieceType, color: PieceColor) {
    board.0[at.0][at.1] = Some(ChessPiece { piece_type, color });
}

fn piece(piece_type: PieceType, color: PieceColor) -> Option<ChessPiece> {
    Some(ChessPiece { piece_type, color })
}

/// White king on (8,4) attacked down column 4 by the black queen on (3,4);
/// a white rook on (6,8) can block on (6,4).
fn queen_check_board() -> Board {
    let mut board = empty_board();
    place(&mut board, (8, 4), PieceType::King, PieceColor::White);
    place(&mut board, (3, 4), PieceType::Queen, PieceColor::Black);
    place(&mut board, (6, 8), PieceType::Rook, PieceColor::White);
    board
}

fn white_move_list(board: &Board) -> MoveList {
    let mut list = MoveList::new();
    for p in get_all_pieces(board, PieceColor::White) {
        list.insert((p.x, p.y), get_legal_moves(board, &(p.x, p.y)));
    }
    list
}

#[test]
fn start_position_has_no_check() {
    let board = get_default_board();
    assert!(!is_check(&board, PieceColor::White));
    assert!(!is_check(&board, PieceColor::Black));
}

#[test]
fn board_without_king_is_not_in_check() {
    let mut board = empty_board();
    place(&mut board, (3, 4), PieceType::Queen, PieceColor::Black);
    assert!(!is_check(&board, PieceColor::White));
}

#[test]
fn queen_gives_check() {
    let board = queen_check_board();
    assert!(is_check(&board, PieceColor::White));
    assert!(!is_check(&board, PieceColor::Black));
}

#[test]
fn blocking_piece_lifts_check() {
    let mut board = queen_check_board();
    place(&mut board, (5, 4), PieceType::Pawn, PieceColor::White);
    assert!(!is_check(&board, PieceColor::White));
}

#[test]
fn filter_keeps_only_moves_out_of_check() {
    let board = queen_check_board();
    let mut list = white_move_list(&board);
    assert_eq!(list.len(), 2);
    remove_check_moves(&board, &mut list);
    assert_eq!(list.get((6, 8)), Some(&vec![(6, 4)]));
    if let Some(king_moves) = list.get((8, 4)) {
        assert!(!king_moves.is_empty());
        for to in king_moves {
            assert_ne!(to.1, 4);
        }
    }
    for i in 0..list.len() {
        let (from, tos) = list.entry(i);
        for to in tos {
            let mut copy = board;
            let piece = board.0[from.0][from.1].unwrap();
            execute_move(&mut copy, &Move { piece, from, to: *to });
            assert!(!is_check(&copy, PieceColor::White));
        }
    }
    assert!(has_legal_moves(list));
}

#[test]
fn king_step_into_attack_is_removed() {
    let mut board = empty_board();
    place(&mut board, (8, 4), PieceType::King, PieceColor::White);
    place(&mut board, (3, 3), PieceType::Rook, PieceColor::Black);
    let mut list = white_move_list(&board);
    let before = list.get((8, 4)).unwrap().clone();
    assert!(before.contains(&(8, 3)));
    remove_check_moves(&board, &mut list);
    let after = list.get((8, 4)).unwrap();
    for cell in [(7, 3), (8, 3), (9, 3), (10, 3)] {
        assert!(before.contains(&cell));
        assert!(!after.contains(&cell));
    }
    assert_eq!(after.len(), before.len() - 4);
}

#[test]
fn origins_without_moves_are_dropped() {
    let mut board = empty_board();
    place(&mut board, (8, 4), PieceType::King, PieceColor::White);
    place(&mut board, (7, 4), PieceType::Rook, PieceColor::White);
    place(&mut board, (3, 4), PieceType::Queen, PieceColor::Black);
    let mut list = MoveList::new();
    list.insert((7, 4), vec![(7, 3), (7, 5)]);
    remove_check_moves(&board, &mut list);
    assert_eq!(list.len(), 0);
    assert!(!has_legal_moves(list));
}

#[test]
fn empty_move_list_has_no_moves() {
    assert!(!has_legal_moves(MoveList::new()));
}

#[test]
fn move_list_insert_replaces() {
    let mut list = MoveList::new();
    list.insert((5, 5), vec![(4, 5)]);
    list.insert((6, 6), vec![]);
    list.insert((5, 5), vec![(6, 5), (7, 5)]);
    assert_eq!(list.len(), 2);
    assert_eq!(list.get((5, 5)), Some(&vec![(6, 5), (7, 5)]));
    assert_eq!(list.entry(0).0, (5, 5));
    assert_eq!(list.get((1, 1)), None);
    assert!(!list.is_empty());
}

#[test]
fn execute_move_relocates_and_captures() {
    let mut board = empty_board();
    place(&mut board, (5, 5), PieceType::Rook, PieceColor::White);
    place(&mut board, (5, 7), PieceType::Pawn, PieceColor::Black);
    let rook = board.0[5][5].unwrap();
    execute_move(&mut board, &Move { piece: rook, from: (5, 5), to: (5, 7) });
    assert_eq!(board.0[5][7], piece(PieceType::Rook, PieceColor::White));
    assert_eq!(board.0[5][5], piece(PieceType::Empty, PieceColor::Empty));
}

#[test]
fn all_pieces_in_row_major_order() {
    let board = get_default_board();
    let white = get_all_pieces(&board, PieceColor::White);
    assert_eq!(white.len(), 18);
    assert_eq!((white[0].x, white[0].y), (6, 5));
    assert_eq!(white[0].piece.piece_type, PieceType::Pawn);
    let last = white[white.len() - 1];
    assert_eq!((last.x, last.y), (10, 5));
    let black = get_all_pieces(&board, PieceColor::Black);
    assert_eq!(black.len(), 18);
    assert_eq!((black[0].x, black[0].y), (0, 5));
    for i in 1..black.len() {
        assert!((black[i - 1].x, black[i - 1].y) < (black[i].x, black[i].y));
    }
}

#[test]
fn default_board_layout() {
    let board = get_default_board();
    assert_eq!(board.0[10][4], piece(PieceType::King, PieceColor::White));
    assert_eq!(board.0[1][4], piece(PieceType::King, PieceColor::Black));
    assert_eq!(board.0[9][6], piece(PieceType::Queen, PieceColor::White));
    assert_eq!(board.0[0][6], piece(PieceType::Queen, PieceColor::Black));
    assert_eq!(board.0[5][5], piece(PieceType::Empty, PieceColor::Empty));
}

#[test]
fn game_turns_and_moves() {
    let mut game = Game::new();
    assert_eq!(game.get_next_turn(), "W");
    assert_eq!(game.result, GameResult::Ongoing);
    let moves = game.get_current_player_moves();
    assert_eq!(moves.get((7, 4)), Some(&vec![(6, 4), (5, 4)]));
    game.make_move((7, 4), (5, 4));
    assert_eq!(game.board.0[5][4], piece(PieceType::Pawn, PieceColor::White));
    assert_eq!(game.board.0[7][4], piece(PieceType::Empty, PieceColor::Empty));
    game.switch_player();
    assert_eq!(game.get_next_turn(), "B");
    game.switch_player();
    assert_eq!(game.get_next_turn(), "W");
}

#[test]
fn position_results() {
    assert_eq!(position_result(true, false), GameResult::Checkmate);
    assert_eq!(position_result(false, false), GameResult::Stalemate);
    assert_eq!(position_result(true, true), GameResult::Ongoing);
    assert_eq!(position_result(false, true), GameResult::Ongoing);
}

#[test]
fn config_validation_and_fallback() {
    let fallback = get_fallback_config();
    assert!(!fallback.board_from_file);
    assert_eq!(fallback.board_path, "");
    assert!(!validate_config(&fallback));
    let config = AppConfig { board_from_file: true, board_path: String::from("board.txt") };
    assert!(validate_config(&config));
    let kept = config_or_fallback(config);
    assert!(kept.board_from_file);
    assert_eq!(kept.board_path, "board.txt");
    let replaced =
        config_or_fallback(AppConfig { board_from_file: true, board_path: String::new() });
    assert!(!replaced.board_from_file);
}
