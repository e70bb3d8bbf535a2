//! The board: which session sits on which key, and how the key is lit.
pub mod theme;
pub mod slot_allocator;
pub mod session_board;
