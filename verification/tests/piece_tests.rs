use bitschess::{Piece, PieceColor, PieceType};

#[test]
fn test_piece_color() {
    assert_eq!(PieceColor::from_u8(0b0), PieceColor::White);
    assert_eq!(PieceColor::from_u8(0b1), PieceColor::Black);
    assert_eq!(PieceColor::from_u8(0b1111_1110), PieceColor::White);
    assert_eq!(PieceColor::from_u8(0b1111_1111), PieceColor::Black);
    assert_eq!(PieceColor::Black.flipped(), PieceColor::White);
    assert_eq!(PieceColor::White.flipped(), PieceColor::Black);
    let mut col = PieceColor::Black;
    col.flip();
    assert_eq!(col, PieceColor::White);
    col.flip();
    assert_eq!(col, PieceColor::Black);
    assert_eq!(PieceColor::White.to_index(), 0);
    assert_eq!(PieceColor::Black.to_index(), 1);
}

#[test]
fn test_piece_type() {
    assert_eq!(PieceType::Pawn.get_side_index(PieceColor::White), 0);
    assert_eq!(PieceType::Knight.get_side_index(PieceColor::White), 1);
    assert_eq!(PieceType::Queen.get_side_index(PieceColor::White), 4);
    assert_eq!(PieceType::King.get_side_index(PieceColor::White), 5);
    assert_eq!(PieceType::Pawn.get_side_index(PieceColor::Black), 6);
    assert_eq!(PieceType::Knight.get_side_index(PieceColor::Black), 7);
    assert_eq!(PieceType::Queen.get_side_index(PieceColor::Black), 10);
    assert_eq!(PieceType::King.get_side_index(PieceColor::Black), 11);
    assert_eq!(PieceType::Pawn.get_index(), 0);
    assert_eq!(PieceType::King.get_index(), 5);

    assert_eq!(PieceType::from_char('p'), PieceType::Pawn);
    assert_eq!(PieceType::from_char('n'), PieceType::Knight);
    assert_eq!(PieceType::from_char('b'), PieceType::Bishop);
    assert_eq!(PieceType::from_char('r'), PieceType::Rook);
    assert_eq!(PieceType::from_char('q'), PieceType::Queen);
    assert_eq!(PieceType::from_char('k'), PieceType::King);
    assert_eq!(PieceType::from_char('K'), PieceType::King);
    assert_eq!(PieceType::from_char('?'), PieceType::Empty);
    assert_eq!(PieceType::from_char('@'), PieceType::Empty);
    assert_eq!(PieceType::from_char('\0'), PieceType::Empty);
    assert_eq!(PieceType::from_char('\n'), PieceType::Empty);

    assert_eq!(PieceType::Empty.to_char(), ' ');
    assert_eq!(PieceType::Pawn.to_char(), 'p');
    assert_eq!(PieceType::Knight.to_char(), 'n');
    assert_eq!(PieceType::Bishop.to_char(), 'b');
    assert_eq!(PieceType::Rook.to_char(), 'r');
    assert_eq!(PieceType::Queen.to_char(), 'q');
    assert_eq!(PieceType::King.to_char(), 'k');

    assert_eq!(PieceType::from_u8(0), PieceType::Empty);
    assert_eq!(PieceType::from_u8(1), PieceType::Pawn);
    assert_eq!(PieceType::from_u8(2), PieceType::Knight);
    assert_eq!(PieceType::from_u8(3), PieceType::Bishop);
    assert_eq!(PieceType::from_u8(4), PieceType::Rook);
    assert_eq!(PieceType::from_u8(5), PieceType::Queen);
    assert_eq!(PieceType::from_u8(6), PieceType::King);
    assert_eq!(PieceType::from_u8(8 + 5), PieceType::Queen);

    assert_eq!(PieceType::Empty.get_value(), 0);
    assert_eq!(PieceType::Pawn.get_value(), 100);
    assert_eq!(PieceType::Knight.get_value(), 300);
    assert_eq!(PieceType::Bishop.get_value(), 320);
    assert_eq!(PieceType::Rook.get_value(), 500);
    assert_eq!(PieceType::Queen.get_value(), 900);
    assert_eq!(PieceType::King.get_value(), 0);
}

#[test]
fn test_piece() {
    let white_pawn = Piece::from_char('P');
    let black_pawn = Piece::from_char('p');
    assert_eq!(white_pawn.get_piece_index(), 0);
    assert_eq!(black_pawn.get_piece_index(), 6);
    assert_eq!(white_pawn.get_color(), PieceColor::White);
    assert_eq!(black_pawn.get_color(), PieceColor::Black);
    assert_eq!(white_pawn.is_white(), true);
    assert_eq!(black_pawn.is_white(), false);
    assert_eq!(white_pawn.is_black(), false);
    assert_eq!(black_pawn.is_black(), true);
    assert_eq!(white_pawn.0, 1);
    assert_eq!(black_pawn.0, 0x81);

    let none_piece1 = Piece::new(0);
    let none_piece2 = Piece::from_char(' ');
    assert_eq!(none_piece1.is_none(), true);
    assert_eq!(none_piece2.is_none(), true);
    assert_eq!(Piece::new(0xFF).is_none(), true);
    assert_eq!(white_pawn.is_none(), false);
    assert_eq!(black_pawn.is_none(), false);
    assert_eq!(none_piece2.get_piece_type(), PieceType::Empty);

    let mut promoted_white = Piece::from_char('P');
    let mut promoted_black = Piece::from_char('p');
    promoted_white.set_piece(PieceType::Queen);
    promoted_black.set_piece(PieceType::King);
    assert_eq!(promoted_white, Piece::from_char('Q'));
    assert_eq!(promoted_black, Piece::from_char('k'));

    let black_queen = Piece::from_char('q');
    let black_knight = Piece::from_char('n');
    assert_eq!(white_pawn.get_piece(), 1);
    assert_eq!(black_pawn.get_piece(), 1);
    assert_eq!(black_queen.get_piece(), 5);
    assert_eq!(white_pawn.get_piece_type(), PieceType::Pawn);
    assert_eq!(black_knight.get_piece_type(), PieceType::Knight);
    assert_eq!(black_queen.get_piece_type(), PieceType::Queen);

    assert_eq!(none_piece2.to_char(), ' ');
    assert_eq!(white_pawn.to_char(), 'P');
    assert_eq!(black_knight.to_char(), 'n');
    assert_eq!(black_queen.to_char(), 'q');
    for ch in ['P', 'N', 'B', 'R', 'Q', 'K', 'p', 'n', 'b', 'r', 'q', 'k'] {
        assert_eq!(Piece::from_char(ch).to_char(), ch);
    }

    assert_eq!(white_pawn.get_piece_value(), 100);
    assert_eq!(black_queen.get_piece_value(), 900);
    assert_eq!(none_piece1.get_piece_value(), 0);

    let black_king = Piece::from_char('k');
    let white_queen = Piece::from_char('Q');
    assert_eq!(black_king.get_piece_type(), PieceType::King);
    assert_eq!(black_king.is_black(), true);
    assert_eq!(white_queen.get_piece_type(), PieceType::Queen);
    assert_eq!(white_queen.is_white(), true);
}
