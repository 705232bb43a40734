//! Core logic of a Minesweeper game: the tile grid with bomb placement and
//! neighbor-count derivation, the board with its cover/mark bookkeeping and
//! the worklist flood-fill uncover, and the session state machine that turns
//! player intents into outcome events. Rendering, asset handling and raw
//! input live outside this crate; the board hands them opaque `u64` handles.

pub mod coordinates;
pub mod errors;
pub mod events;
mod random;
pub mod tile;
pub mod board;
pub mod session;
pub mod tile_map;
