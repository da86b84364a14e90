//! Tiled text watermarks: layout of the text lines, trimming of the rotated
//! text canvas down to a tile, and stamping of that tile over a base image.

pub mod canvas;
pub mod color;
pub mod layout;
pub mod tile;
pub mod trim;
