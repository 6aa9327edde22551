//! Core logic of a terminal Doom front end: WAD decoding, input state,
//! engine input bookkeeping and terminal cell styling.

pub mod bytes;
pub mod wad;
pub mod input;
pub mod engine;
pub mod provider;
pub mod game;
pub mod render;
