//! Chess move generation and game representation with bitboards.

pub mod pieces;
pub mod square;

pub use pieces::{piece_from_fen, piece_to_fen, Color, Piece, Promotion};
pub use square::{File, NegDiag, PosDiag, Rank, Square};
pub mod bitboard;
pub use bitboard::BitBoard;
pub mod attacks;
pub mod castling_rights;
pub use castling_rights::CastlingRights;
pub mod board;
pub use board::Board;
pub mod zobrist;
pub mod position;
pub use position::{ParseFenError, Position};
pub mod movegen;
pub use movegen::{ChessMove, ChessMoveHint, PackedChessMove};

pub mod make_unmake;
pub use make_unmake::ChessUnmove;
pub mod move_laws;
pub mod move_generation;
pub mod fen;
pub mod game;
pub mod lan;
pub mod score;
pub mod search_score;
pub mod move_list;
pub mod transposition;
pub mod hashmap;
pub mod pv;
pub mod uci;
pub mod search;
pub mod engine;
pub mod images;
pub mod explorer;
