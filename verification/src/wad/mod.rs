//! Decoding of Doom WAD archives: header, directory, map lumps, textures
//! and flats.

pub mod error;
pub mod names;
pub mod parser;
pub mod reader;
pub mod world;
