pub mod attacks;
pub mod bitboard;
pub mod board;
pub mod eval;
pub mod fen;
pub mod history;
pub mod movegen;
pub mod movepick;
pub mod search;
pub mod see;
pub mod time;
pub mod smp;
pub mod nnue;
pub mod perft;
pub mod transposition;
pub mod types;
pub mod uci;
pub mod zobrist;
