//! A chess position engine on bitboards: legal move generation, reversible
//! make/unmake with incremental Zobrist hashing, and FEN input and output.
//!
//! The list of generated moves is stated in `rules` and related to the
//! game in four laws. In a position of a game (`playable`) every generated
//! move obeys the rules by which its piece moves (`lawful`), no move is
//! generated twice (`uniqueness`), no generated move leaves the king of
//! its side in check (`legality`), and every move by rule that leaves the
//! king safe is generated (`completeness`). The last two hold but for
//! some en-passant captures, which those modules name exactly. Writing a
//! position and reading the text gives the position back (`fen_inverse`).

pub mod bitboard;
pub mod bits;
pub mod board;
pub mod board_helper;
pub mod checks;
pub mod chess_move;
pub mod completeness;
pub mod display;
pub mod equality;
pub mod fen;
pub mod fen_inverse;
pub mod geometry;
pub mod lawful;
pub mod legality;
pub mod listing;
pub mod magics;
pub mod make_move;
pub mod move_generation;
pub mod movement;
pub mod piece;
pub mod pins;
pub mod play;
pub mod playable;
pub mod position;
pub mod repetition_table;
pub mod rules;
pub mod safety;
pub mod sliders;
pub mod tables;
pub mod uniqueness;
pub mod validity;
pub mod zobrist;

pub use bitboard::BitBoard;
pub use board::ChessBoard;
pub use board_helper::{BoardHelper, Square};
pub use chess_move::{Move, MoveContainer, MoveFlag, ReversibleMove};
pub use fen::{FenParsingError, STARTPOS_FEN, STARTPOS_FEN_BLACK};
pub use move_generation::MoveGenerator;
pub use piece::{Piece, PieceColor, PieceType};
pub use repetition_table::RepetitionTable;
pub use tables::AttackTables;
pub use zobrist::ZobristKeys;
