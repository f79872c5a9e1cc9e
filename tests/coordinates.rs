use hexchess::board::{decode_coordinates_bitwise, decode_piece};
use hexchess::moves::{get_move_coordinate, is_coordinate_in_bounds, MoveDirection, OFF_BOARD};
use hexchess::pieces::{PieceColor, PieceType};

#[test]
fn in_bounds_matches_band_on_every_cell() {
    let mut count = 0;
    for r in 0usize..11 {
        for c in 0usize..11 {
            let expected = r + c >= 5 && r + c <= 15;
            assert_eq!(is_coordinate_in_bounds(&(r, c)), expected, "cell {},{}", r, c);
            if expected {
                count += 1;
            }
        }
    }
    assert_eq!(count, 91);
}

#[test]
fn in_bounds_rejects_outside_grid() {
    assert!(!is_coordinate_in_bounds(&(11, 0)));
    assert!(!is_coordinate_in_bounds(&(0, 11)));
    assert!(!is_coordinate_in_bounds(&(OFF_BOARD, OFF_BOARD)));
    assert!(!is_coordinate_in_bounds(&(4, 0)));
    assert!(!is_coordinate_in_bounds(&(10, 6)));
    assert!(is_coordinate_in_bounds(&(0, 5)));
    assert!(is_coordinate_in_bounds(&(10, 5)));
}

#[test]
fn decode_round_trip_all_nibbles() {
    for row in 0usize..16 {
        for col in 0usize..16 {
            assert_eq!(decode_coordinates_bitwise(row * 16 + col), (row, col));
        }
    }
}

#[test]
fn decode_ignores_high_bits() {
    assert_eq!(decode_coordinates_bitwise(0x5A), (5, 10));
    assert_eq!(decode_coordinates_bitwise(0x1A3), (10, 3));
}

#[test]
fn decode_piece_codes() {
    let p = decode_piece("WP").unwrap();
    assert_eq!((p.piece_type, p.color), (PieceType::Pawn, PieceColor::White));
    let p = decode_piece("BK").unwrap();
    assert_eq!((p.piece_type, p.color), (PieceType::King, PieceColor::Black));
    let p = decode_piece("BN").unwrap();
    assert_eq!((p.piece_type, p.color), (PieceType::Knight, PieceColor::Black));
    let p = decode_piece("WQ").unwrap();
    assert_eq!((p.piece_type, p.color), (PieceType::Queen, PieceColor::White));
    let p = decode_piece("BR").unwrap();
    assert_eq!((p.piece_type, p.color), (PieceType::Rook, PieceColor::Black));
    let p = decode_piece("WB").unwrap();
    assert_eq!((p.piece_type, p.color), (PieceType::Bishop, PieceColor::White));
}

#[test]
fn decode_piece_defaults() {
    let p = decode_piece("BX").unwrap();
    assert_eq!((p.piece_type, p.color), (PieceType::Pawn, PieceColor::Black));
    let p = decode_piece("XK").unwrap();
    assert_eq!((p.piece_type, p.color), (PieceType::King, PieceColor::White));
}

#[test]
fn steps_in_every_direction() {
    let c = (5, 5);
    assert_eq!(get_move_coordinate(MoveDirection::Up, &c), (4, 5));
    assert_eq!(get_move_coordinate(MoveDirection::Down, &c), (6, 5));
    assert_eq!(get_move_coordinate(MoveDirection::LeftUp, &c), (4, 6));
    assert_eq!(get_move_coordinate(MoveDirection::LeftDown, &c), (5, 6));
    assert_eq!(get_move_coordinate(MoveDirection::RightUp, &c), (5, 4));
    assert_eq!(get_move_coordinate(MoveDirection::RightDown, &c), (6, 4));
    assert_eq!(get_move_coordinate(MoveDirection::DiagonalLeft, &c), (4, 7));
    assert_eq!(get_move_coordinate(MoveDirection::DiagonalRight, &c), (6, 3));
    assert_eq!(get_move_coordinate(MoveDirection::DiagonalLeftUp, &c), (3, 6));
    assert_eq!(get_move_coordinate(MoveDirection::DiagonalLeftDown, &c), (6, 6));
    assert_eq!(get_move_coordinate(MoveDirection::DiagonalRightUp, &c), (4, 4));
    assert_eq!(get_move_coordinate(MoveDirection::DiagonalRightDown, &c), (7, 4));
}

#[test]
fn steps_below_zero_give_off_board() {
    let off = (OFF_BOARD, OFF_BOARD);
    assert_eq!(get_move_coordinate(MoveDirection::Up, &(0, 7)), off);
    assert_eq!(get_move_coordinate(MoveDirection::RightUp, &(7, 0)), off);
    assert_eq!(get_move_coordinate(MoveDirection::DiagonalRight, &(7, 1)), off);
    assert_eq!(get_move_coordinate(MoveDirection::DiagonalLeftUp, &(1, 7)), off);
    assert_eq!(get_move_coordinate(MoveDirection::DiagonalRightUp, &(5, 0)), off);
    assert_eq!(get_move_coordinate(MoveDirection::DiagonalRightDown, &(5, 0)), off);
    assert_eq!(get_move_coordinate(MoveDirection::LeftUp, &(0, 9)), off);
    assert_eq!(get_move_coordinate(MoveDirection::RightDown, &(9, 0)), off);
    assert_eq!(get_move_coordinate(MoveDirection::DiagonalLeft, &(0, 5)), off);
    assert!(!is_coordinate_in_bounds(&off));
}
