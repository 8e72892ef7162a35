//! A first-fit, address-ordered block allocator over a single upward-growing arena.
//!
//! The arena is a range of addresses starting at a base address. Every live allocation is a
//! block: a header of fixed size followed, after alignment padding, by the data region. Blocks
//! are kept in increasing address order; a new block goes into the first gap that holds it,
//! counting the space between the arena base and the first block, or after the last block.
//!
//! The crate also holds the rules of a falling-block game that runs on such an arena: pieces,
//! the board, debounced input and the per-frame game step.
pub mod align;
pub mod allocator;
pub mod block;
pub mod display;
pub mod tetris;

pub use align::{is_power_of_two, round_up};
pub use allocator::{AllocError, ArenaAllocator, BlockIter, InvalidFree};
pub use block::{ArenaConfig, Block};
pub use display::{convert_str, Color};
pub use tetris::{
    factorial, Board, Coord, FallingPiece, KeyState, Tetris, TetrisGame, TetrisInput, TetrisRenderer,
    TetrisSound, Tetrominoes,
};
