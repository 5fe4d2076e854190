//! Rule engine for a single-player grid puzzle built on an epistemic
//! mechanic: the player occupies one cell of a 4x4 grid, every cell carries a
//! hidden boolean bit, and a fixed "law of nature" transforms complete
//! assignments of those 16 bits. A move is granted only when, across every
//! hidden assignment consistent with current knowledge, the law forces the
//! destination's post-transformation bit to equal the origin's bit; a granted
//! move also updates which cells are definitively known.

pub mod bits;
pub mod board;
pub mod games;
pub mod law;

pub use bits::{get_bit, move_bit, set_bit, snake_bits, swap_bits, toggle_bit};
pub use board::{Board, Cell};
pub use games::{clock, diagonal, snake, Game};
pub use law::{
    Anywhere, Clock, Diagonal, DirectWin, FakeChoice, FakeChoice2, ForceGoalFalse,
    ForceNeighborTrue, Law, RevealingStep, Snake,
};
