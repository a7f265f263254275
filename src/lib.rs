//! Rendering for a 160x160 display at 2 bits per pixel: ordered dithering of
//! 13-level intensity grids, a cellular fire animation driven by a shift
//! register generator, and tile compositing with edge clipping.

pub mod dither;
pub mod fire;
pub mod game_stage;
pub mod random;
pub mod tile;
