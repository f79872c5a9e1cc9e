use hexchess::board::{empty_board, get_default_board};
use hexchess::notation::{parse_position, NotationError};
use hexchess::pieces::{ChessPiece, PieceColor, PieceType};

fn piece(piece_type: PieceType, color: PieceColor) -> Option<ChessPiece> {
    Some(ChessPiece { piece_type, color })
}

#[test]
fn reads_entries_onto_empty_board() {
    let board = parse_position(b"164:WK;20:BK;9:BP").unwrap();
    let mut expected = empty_board();
    expected.0[10][4] = piece(PieceType::King, PieceColor::White);
    expected.0[1][4] = piece(PieceType::King, PieceColor::Black);
    expected.0[0][9] = piece(PieceType::Pawn, PieceColor::Black);
    assert_eq!(board, expected);
}

#[test]
fn ignores_whitespace_and_trailing_separator() {
    let a = parse_position(b"164:WK;20:BK").unwrap();
    let b = parse_position(b"  164:WK;\n20:BK;\r\n").unwrap();
    assert_eq!(a, b);
}

#[test]
fn skips_entries_that_are_not_pairs() {
    let board = parse_position(b"164:WK;;garbage;1:2:3;:WP;5:").unwrap();
    let mut expected = empty_board();
    expected.0[10][4] = piece(PieceType::King, PieceColor::White);
    assert_eq!(board, expected);
}

#[test]
fn empty_text_gives_empty_board() {
    assert_eq!(parse_position(b""), Ok(empty_board()));
}

#[test]
fn high_bits_of_code_are_ignored() {
    let board = parse_position(b"420:BQ").unwrap();
    assert_eq!(board.0[10][4], piece(PieceType::Queen, PieceColor::Black));
}

#[test]
fn unknown_letters_default_to_white_pawn() {
    let board = parse_position(b"85:XZ").unwrap();
    assert_eq!(board.0[5][5], piece(PieceType::Pawn, PieceColor::White));
}

#[test]
fn later_entry_overwrites_cell() {
    let board = parse_position(b"85:WN;85:BR").unwrap();
    assert_eq!(board.0[5][5], piece(PieceType::Rook, PieceColor::Black));
}

#[test]
fn rejects_bad_numbers() {
    assert_eq!(parse_position(b"x1:WK"), Err(NotationError::InvalidNumber));
    assert_eq!(parse_position(b"-5:WK"), Err(NotationError::InvalidNumber));
    assert_eq!(
        parse_position(b"99999999999999999999999:WK"),
        Err(NotationError::InvalidNumber)
    );
}

#[test]
fn rejects_short_piece_code() {
    assert_eq!(parse_position(b"164:W"), Err(NotationError::ShortPieceCode));
}

#[test]
fn rejects_cells_off_grid() {
    assert_eq!(parse_position(b"187:WK"), Err(NotationError::OffGrid));
    assert_eq!(parse_position(b"176:WK"), Err(NotationError::OffGrid));
}

#[test]
fn first_error_wins() {
    assert_eq!(parse_position(b"164:W;x:WK"), Err(NotationError::ShortPieceCode));
}

#[test]
fn start_position_round_trips_through_text() {
    let start = get_default_board();
    let mut text = String::new();
    for r in 0..11usize {
        for c in 0..11usize {
            let p = start.0[r][c].unwrap();
            if p.color == PieceColor::Empty {
                continue;
            }
            let color = if p.color == PieceColor::White { 'W' } else { 'B' };
            let kind = match p.piece_type {
                PieceType::Pawn => 'P',
                PieceType::Knight => 'N',
                PieceType::Bishop => 'B',
                PieceType::Rook => 'R',
                PieceType::Queen => 'Q',
                _ => 'K',
            };
            text.push_str(&format!("{}:{}{};", r * 16 + c, color, kind));
        }
    }
    assert_eq!(parse_position(text.as_bytes()), Ok(start));
}
