use bitschess::{BoardHelper, Square};

#[test]
fn board_helper_test_board_helper_text_to_square() {
    assert_eq!(BoardHelper::text_to_square("a1"), Square::A1 as i32);
    assert_eq!(BoardHelper::text_to_square("A4"), Square::A4 as i32);
    assert_eq!(BoardHelper::text_to_square("h5"), Square::H5 as i32);
    assert_eq!(BoardHelper::text_to_square("E4"), Square::E4 as i32);
    assert_eq!(BoardHelper::text_to_square("h1"), Square::H1 as i32);
    assert_eq!(BoardHelper::text_to_square("H7"), Square::H7 as i32);
}

#[test]
fn test_board_helper_text_to_square() {
    assert_eq!(BoardHelper::text_to_square("a1"), Square::A1 as i32);
    assert_eq!(BoardHelper::text_to_square("A4"), Square::A4 as i32);
    assert_eq!(BoardHelper::text_to_square("h5"), Square::H5 as i32);
    assert_eq!(BoardHelper::text_to_square("E4"), Square::E4 as i32);
    assert_eq!(BoardHelper::text_to_square("h1"), Square::H1 as i32);
    assert_eq!(BoardHelper::text_to_square("H7"), Square::H7 as i32);
}

#[test]
fn test_board_helper_square_to_string() {
    assert_eq!(BoardHelper::square_to_string(Square::A8 as i32), "a8");
    assert_eq!(BoardHelper::square_to_string(Square::B7 as i32), "b7");
    assert_eq!(BoardHelper::square_to_string(Square::C6 as i32), "c6");
    assert_eq!(BoardHelper::square_to_string(Square::D5 as i32), "d5");
    assert_eq!(BoardHelper::square_to_string(Square::E4 as i32), "e4");
    assert_eq!(BoardHelper::square_to_string(Square::F3 as i32), "f3");
    assert_eq!(BoardHelper::square_to_string(Square::G2 as i32), "g2");
    assert_eq!(BoardHelper::square_to_string(Square::H1 as i32), "h1");
}

#[test]
fn board_helper_test_board_helper_file_to_idx() {
    assert_eq!(BoardHelper::file_to_idx('a'), Square::A1 as i32);
    assert_eq!(BoardHelper::file_to_idx('A'), Square::A1 as i32);
    assert_eq!(BoardHelper::file_to_idx('b'), Square::B1 as i32);
    assert_eq!(BoardHelper::file_to_idx('B'), Square::B1 as i32);
    assert_eq!(BoardHelper::file_to_idx('c'), Square::C1 as i32);
    assert_eq!(BoardHelper::file_to_idx('C'), Square::C1 as i32);
    assert_eq!(BoardHelper::file_to_idx('d'), Square::D1 as i32);
    assert_eq!(BoardHelper::file_to_idx('D'), Square::D1 as i32);
    assert_eq!(BoardHelper::file_to_idx('e'), Square::E1 as i32);
    assert_eq!(BoardHelper::file_to_idx('E'), Square::E1 as i32);
    assert_eq!(BoardHelper::file_to_idx('f'), Square::F1 as i32);
    assert_eq!(BoardHelper::file_to_idx('F'), Square::F1 as i32);
    assert_eq!(BoardHelper::file_to_idx('g'), Square::G1 as i32);
    assert_eq!(BoardHelper::file_to_idx('G'), Square::G1 as i32);
    assert_eq!(BoardHelper::file_to_idx('h'), Square::H1 as i32);
    assert_eq!(BoardHelper::file_to_idx('H'), Square::H1 as i32);
}

#[test]
fn test_board_helper_file_to_idx() {
    assert_eq!(BoardHelper::file_to_idx('a'), Square::A1 as i32);
    assert_eq!(BoardHelper::file_to_idx('A'), Square::A1 as i32);
    assert_eq!(BoardHelper::file_to_idx('b'), Square::B1 as i32);
    assert_eq!(BoardHelper::file_to_idx('B'), Square::B1 as i32);
    assert_eq!(BoardHelper::file_to_idx('c'), Square::C1 as i32);
    assert_eq!(BoardHelper::file_to_idx('C'), Square::C1 as i32);
    assert_eq!(BoardHelper::file_to_idx('d'), Square::D1 as i32);
    assert_eq!(BoardHelper::file_to_idx('D'), Square::D1 as i32);
    assert_eq!(BoardHelper::file_to_idx('e'), Square::E1 as i32);
    assert_eq!(BoardHelper::file_to_idx('E'), Square::E1 as i32);
    assert_eq!(BoardHelper::file_to_idx('f'), Square::F1 as i32);
    assert_eq!(BoardHelper::file_to_idx('F'), Square::F1 as i32);
    assert_eq!(BoardHelper::file_to_idx('g'), Square::G1 as i32);
    assert_eq!(BoardHelper::file_to_idx('G'), Square::G1 as i32);
    assert_eq!(BoardHelper::file_to_idx('h'), Square::H1 as i32);
    assert_eq!(BoardHelper::file_to_idx('H'), Square::H1 as i32);
}

#[test]
fn test_board_helper_file_rank_to_idx() {
    assert_eq!(BoardHelper::file_rank_to_idx(0, 7), Square::A8 as i32);
    assert_eq!(BoardHelper::file_rank_to_idx(1, 6), Square::B7 as i32);
    assert_eq!(BoardHelper::file_rank_to_idx(2, 5), Square::C6 as i32);
    assert_eq!(BoardHelper::file_rank_to_idx(3, 4), Square::D5 as i32);
    assert_eq!(BoardHelper::file_rank_to_idx(4, 3), Square::E4 as i32);
    assert_eq!(BoardHelper::file_rank_to_idx(5, 2), Square::F3 as i32);
    assert_eq!(BoardHelper::file_rank_to_idx(6, 1), Square::G2 as i32);
    assert_eq!(BoardHelper::file_rank_to_idx(7, 0), Square::H1 as i32);
}

#[test]
fn test_board_helper_rank_to_idx() {
    assert_eq!(BoardHelper::rank_to_idx('1'), 0);
    assert_eq!(BoardHelper::rank_to_idx('2'), 1);
    assert_eq!(BoardHelper::rank_to_idx('3'), 2);
    assert_eq!(BoardHelper::rank_to_idx('4'), 3);
    assert_eq!(BoardHelper::rank_to_idx('5'), 4);
    assert_eq!(BoardHelper::rank_to_idx('6'), 5);
    assert_eq!(BoardHelper::rank_to_idx('7'), 6);
    assert_eq!(BoardHelper::rank_to_idx('8'), 7);
}

#[test]
fn board_helper_test_board_helper_get_rank() {
    assert_eq!(BoardHelper::get_rank(Square::H1 as i32), 0);
    assert_eq!(BoardHelper::get_rank(Square::G2 as i32), 1);
    assert_eq!(BoardHelper::get_rank(Square::F3 as i32), 2);
    assert_eq!(BoardHelper::get_rank(Square::E4 as i32), 3);
    assert_eq!(BoardHelper::get_rank(Square::D5 as i32), 4);
    assert_eq!(BoardHelper::get_rank(Square::C6 as i32), 5);
    assert_eq!(BoardHelper::get_rank(Square::B7 as i32), 6);
    assert_eq!(BoardHelper::get_rank(Square::A8 as i32), 7);
}

#[test]
fn test_board_helper_get_rank() {
    assert_eq!(BoardHelper::get_rank(Square::H1 as i32), 0);
    assert_eq!(BoardHelper::get_rank(Square::G2 as i32), 1);
    assert_eq!(BoardHelper::get_rank(Square::F3 as i32), 2);
    assert_eq!(BoardHelper::get_rank(Square::E4 as i32), 3);
    assert_eq!(BoardHelper::get_rank(Square::D5 as i32), 4);
    assert_eq!(BoardHelper::get_rank(Square::C6 as i32), 5);
    assert_eq!(BoardHelper::get_rank(Square::B7 as i32), 6);
    assert_eq!(BoardHelper::get_rank(Square::A8 as i32), 7);
}

#[test]
fn board_helper_test_board_helper_get_file() {
    assert_eq!(BoardHelper::get_file(Square::H1 as i32), 7);
    assert_eq!(BoardHelper::get_file(Square::G2 as i32), 6);
    assert_eq!(BoardHelper::get_file(Square::F3 as i32), 5);
    assert_eq!(BoardHelper::get_file(Square::E4 as i32), 4);
    assert_eq!(BoardHelper::get_file(Square::D5 as i32), 3);
    assert_eq!(BoardHelper::get_file(Square::C6 as i32), 2);
    assert_eq!(BoardHelper::get_file(Square::B7 as i32), 1);
    assert_eq!(BoardHelper::get_file(Square::A8 as i32), 0);
}

#[test]
fn test_board_helper_get_file() {
    assert_eq!(BoardHelper::get_file(Square::H1 as i32), 7);
    assert_eq!(BoardHelper::get_file(Square::G2 as i32), 6);
    assert_eq!(BoardHelper::get_file(Square::F3 as i32), 5);
    assert_eq!(BoardHelper::get_file(Square::E4 as i32), 4);
    assert_eq!(BoardHelper::get_file(Square::D5 as i32), 3);
    assert_eq!(BoardHelper::get_file(Square::C6 as i32), 2);
    assert_eq!(BoardHelper::get_file(Square::B7 as i32), 1);
    assert_eq!(BoardHelper::get_file(Square::A8 as i32), 0);
}

#[test]
fn board_helper_test_board_helper_file_and_rank() {
    assert_eq!(BoardHelper::file_and_rank(Square::A8 as i32), (0, 7));
    assert_eq!(BoardHelper::file_and_rank(Square::B7 as i32), (1, 6));
    assert_eq!(BoardHelper::file_and_rank(Square::C6 as i32), (2, 5));
    assert_eq!(BoardHelper::file_and_rank(Square::D5 as i32), (3, 4));
    assert_eq!(BoardHelper::file_and_rank(Square::E4 as i32), (4, 3));
    assert_eq!(BoardHelper::file_and_rank(Square::F3 as i32), (5, 2));
    assert_eq!(BoardHelper::file_and_rank(Square::G2 as i32), (6, 1));
    assert_eq!(BoardHelper::file_and_rank(Square::H1 as i32), (7, 0));
}

#[test]
fn test_board_helper_file_and_rank() {
    assert_eq!(BoardHelper::file_and_rank(Square::A8 as i32), (0, 7));
    assert_eq!(BoardHelper::file_and_rank(Square::B7 as i32), (1, 6));
    assert_eq!(BoardHelper::file_and_rank(Square::C6 as i32), (2, 5));
    assert_eq!(BoardHelper::file_and_rank(Square::D5 as i32), (3, 4));
    assert_eq!(BoardHelper::file_and_rank(Square::E4 as i32), (4, 3));
    assert_eq!(BoardHelper::file_and_rank(Square::F3 as i32), (5, 2));
    assert_eq!(BoardHelper::file_and_rank(Square::G2 as i32), (6, 1));
    assert_eq!(BoardHelper::file_and_rank(Square::H1 as i32), (7, 0));
}

#[test]
fn board_helper_test_board_helper_square_to_chars() {
    assert_eq!(BoardHelper::square_to_chars(Square::A8 as i32), ('a', '8'));
    assert_eq!(BoardHelper::square_to_chars(Square::B7 as i32), ('b', '7'));
    assert_eq!(BoardHelper::square_to_chars(Square::C6 as i32), ('c', '6'));
    assert_eq!(BoardHelper::square_to_chars(Square::D5 as i32), ('d', '5'));
    assert_eq!(BoardHelper::square_to_chars(Square::E4 as i32), ('e', '4'));
    assert_eq!(BoardHelper::square_to_chars(Square::F3 as i32), ('f', '3'));
    assert_eq!(BoardHelper::square_to_chars(Square::G2 as i32), ('g', '2'));
    assert_eq!(BoardHelper::square_to_chars(Square::H1 as i32), ('h', '1'));
}

#[test]
fn test_board_helper_square_to_chars() {
    assert_eq!(BoardHelper::square_to_chars(Square::A8 as i32), ('a', '8'));
    assert_eq!(BoardHelper::square_to_chars(Square::B7 as i32), ('b', '7'));
    assert_eq!(BoardHelper::square_to_chars(Square::C6 as i32), ('c', '6'));
    assert_eq!(BoardHelper::square_to_chars(Square::D5 as i32), ('d', '5'));
    assert_eq!(BoardHelper::square_to_chars(Square::E4 as i32), ('e', '4'));
    assert_eq!(BoardHelper::square_to_chars(Square::F3 as i32), ('f', '3'));
    assert_eq!(BoardHelper::square_to_chars(Square::G2 as i32), ('g', '2'));
    assert_eq!(BoardHelper::square_to_chars(Square::H1 as i32), ('h', '1'));
}

#[test]
fn test_board_helper_chars_to_square() {
    assert_eq!(BoardHelper::chars_to_square('A', '8'), Square::A8 as i32);
    assert_eq!(BoardHelper::chars_to_square('b', '7'), Square::B7 as i32);
    assert_eq!(BoardHelper::chars_to_square('C', '6'), Square::C6 as i32);
    assert_eq!(BoardHelper::chars_to_square('d', '5'), Square::D5 as i32);
    assert_eq!(BoardHelper::chars_to_square('E', '4'), Square::E4 as i32);
    assert_eq!(BoardHelper::chars_to_square('f', '3'), Square::F3 as i32);
    assert_eq!(BoardHelper::chars_to_square('G', '2'), Square::G2 as i32);
    assert_eq!(BoardHelper::chars_to_square('h', '1'), Square::H1 as i32);
}

#[test]
fn test_board_helper_is_valid_uci_move() {
    assert_eq!(BoardHelper::is_valid_uci_move("a1a2"), true);
    assert_eq!(BoardHelper::is_valid_uci_move("e2e7"), true);
    assert_eq!(BoardHelper::is_valid_uci_move("a1h8"), true);
    assert_eq!(BoardHelper::is_valid_uci_move("h8a1"), true);
    assert_eq!(BoardHelper::is_valid_uci_move("e7e8q"), true);
    assert_eq!(BoardHelper::is_valid_uci_move("e7e8n"), true);
    assert_eq!(BoardHelper::is_valid_uci_move("e7e8b"), true);
    assert_eq!(BoardHelper::is_valid_uci_move("e7e8r"), true);

    assert_eq!(BoardHelper::is_valid_uci_move("A1A7"), true);
    assert_eq!(BoardHelper::is_valid_uci_move("E2E7"), true);
    assert_eq!(BoardHelper::is_valid_uci_move("A1H8"), true);
    assert_eq!(BoardHelper::is_valid_uci_move("H8A1"), true);
    assert_eq!(BoardHelper::is_valid_uci_move("E7E8Q"), true);
    assert_eq!(BoardHelper::is_valid_uci_move("E7E8N"), true);
    assert_eq!(BoardHelper::is_valid_uci_move("E7E8B"), true);
    assert_eq!(BoardHelper::is_valid_uci_move("E7E8R"), true);
    assert_eq!(BoardHelper::is_valid_uci_move("E7E8r"), true);
    assert_eq!(BoardHelper::is_valid_uci_move("e7e8R"), true);

    assert_eq!(BoardHelper::is_valid_uci_move("e7e8Z"), false);
    assert_eq!(BoardHelper::is_valid_uci_move("e7e8z"), false);
    assert_eq!(BoardHelper::is_valid_uci_move("2e27"), false);
    assert_eq!(BoardHelper::is_valid_uci_move("1234"), false);
    assert_eq!(BoardHelper::is_valid_uci_move("abc"), false);
    assert_eq!(BoardHelper::is_valid_uci_move("11111111"), false);
    assert_eq!(BoardHelper::is_valid_uci_move("e2a"), false);
    assert_eq!(BoardHelper::is_valid_uci_move("e2"), false);
    assert_eq!(BoardHelper::is_valid_uci_move("q2x5"), false);
    assert_eq!(BoardHelper::is_valid_uci_move("z2e2"), false);
}

#[test]
fn test_board_helper_invalid_inputs() {
    assert_eq!(BoardHelper::text_to_square("1"), -1);
    assert_eq!(BoardHelper::text_to_square("a"), -1);
    assert_eq!(BoardHelper::text_to_square(""), -1);
    assert_eq!(BoardHelper::text_to_square("B2"), 9);
    assert_eq!(BoardHelper::chars_to_square('a', '9'), -1);
    assert_eq!(BoardHelper::chars_to_square('i', '1'), -1);
    assert_eq!(BoardHelper::chars_to_square('a', '0'), -1);
    assert_eq!(BoardHelper::chars_to_square('h', '0'), -1);
    assert_eq!(BoardHelper::file_to_idx('w'), -1);
    assert_eq!(BoardHelper::file_to_idx('\u{c4}'), -1);
    assert_eq!(BoardHelper::rank_to_idx('0'), -1);
    assert_eq!(BoardHelper::rank_to_idx('9'), -1);
    assert_eq!(BoardHelper::file_rank_to_idx(-1, 6), -1);
    assert_eq!(BoardHelper::file_rank_to_idx(6, -1), -1);
    assert_eq!(BoardHelper::file_rank_to_idx(8, 0), -1);
    assert_eq!(BoardHelper::file_rank_to_idx(5, 2), 21);
    assert_eq!(BoardHelper::square_to_chars(-1), ('-', '-'));
    assert_eq!(BoardHelper::square_to_string(-1), "");
    assert_eq!(BoardHelper::get_rank(-1), -1);
    assert_eq!(BoardHelper::get_file(-1), 7);
}

#[test]
fn test_board_helper_bits() {
    assert_eq!(BoardHelper::bitscan_forward(0b00001000), 3);
    assert_eq!(BoardHelper::bitscan_forward(0b00001100), 2);
    assert_eq!(BoardHelper::bitscan_forward(0b00001001), 0);
    assert_eq!(BoardHelper::bitscan_forward(0b11100000), 5);
    assert_eq!(BoardHelper::bitscan_forward(1u64 << 63), 63);
    assert_eq!(BoardHelper::bitscan_forward(0), 64);
    let mut bits = 0b101101u64;
    assert_eq!(BoardHelper::pop_lsb(&mut bits), 0);
    assert_eq!(bits, 0b101100);
    assert_eq!(BoardHelper::pop_lsb(&mut bits), 2);
    assert_eq!(BoardHelper::pop_lsb(&mut bits), 3);
    assert_eq!(BoardHelper::pop_rsb(&mut bits), 5);
    assert_eq!(bits, 0);
    assert_eq!(BoardHelper::count_bits(0b1111_1111), 8);
    assert_eq!(BoardHelper::count_bits(0b1100_0011), 4);
    assert_eq!(BoardHelper::count_bits(0), 0);
    assert_eq!(BoardHelper::count_bits(u64::MAX), 64);
}

#[test]
fn test_square_from_u32() {
    assert_eq!(Square::from_u32(0), Square::A1);
    assert_eq!(Square::from_u32(63), Square::H8);
    assert_eq!(Square::from_u32(64 + 28), Square::E4);
    assert_eq!(Square::E4.to_index(), 28);
    assert_eq!(Square::INVALID.to_index(), 64);
}
