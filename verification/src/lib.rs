//! Game logic of a small falling-block puzzle game: the playing board and its
//! pieces, the per-frame loop decisions, the sprite draw lists, the GPU upload
//! arithmetic and the reading of Wavefront OBJ text.

pub mod board;
pub mod graphics;
pub mod game;
pub mod utils;
pub mod obj;
