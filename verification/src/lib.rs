pub mod color;
pub mod dir;
pub mod piece;
pub mod square;
pub mod bitboard;
pub mod chess_move;
pub mod castling;
pub mod prng;
pub mod zobrist;
pub mod attacks;
pub mod board;
pub mod legality;
pub mod movegen;
pub mod params;
pub mod history;
pub mod scoring;
pub mod generator;
pub mod text;
pub mod fen;
pub mod eval;
pub mod transposition;
pub mod stack;
pub mod time;
pub mod perft;
pub mod uci;
pub mod manager;
pub mod stop;
pub mod search;
pub mod bench;
pub mod engine;
pub mod nnue;
pub mod diagram;
pub mod uci_session;
